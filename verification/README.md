# uefi_amt_provision

An Intel AMT configuration tool: it reads device information over the AMT
host interface (PTHI), activates Client Control Mode through WS-Management
with HTTP digest authentication, and deactivates it again.

- `src/` is the verified library (Verus). It holds the protocol logic:
  PTHI request framing and response parsing (`amt`), HECI register fields,
  host bus messages and the client connection sequence (`heci`), the APF
  session that tunnels TCP over the LME client (`lme`), HTTP response
  parsing and RFC 2617 digest authentication (`http`, `md5`), the SOAP
  requests and the activation state machine (`wsman`), text rendering of
  device data (`report`) and the framed text screens (`ui`).
- `app/` is the program around it for Linux (`/dev/mei0`) and Windows (the
  MEI driver): device I/O, the terminal, and the loops that hand the
  library's requests to the device and its replies back.
- `tests/` exercises the library on concrete values.
