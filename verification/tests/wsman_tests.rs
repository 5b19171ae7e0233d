use uefi_amt_provision::amt::LsaCredentials;
use uefi_amt_provision::error::Error;
use uefi_amt_provision::http::{parse_response, HttpResponse};
use uefi_amt_provision::wsman::{
    build_commit_changes, build_get_general_settings, build_setup_ccm, hash_admin_password, parse_return_value, xml_extract,
    CcmAction, CcmActivation, CcmStage, SOAP_ENV_CLOSE, SOAP_ENV_OPEN,
};

fn c_str(b: &[u8]) -> &[u8] {
    let n = b.iter().position(|&c| c == 0).unwrap_or(b.len());
    &b[..n]
}

#[test]
fn xml_extract_with_namespace_prefix() {
    let xml = b"<a:Body><g:AMT_GeneralSettings><g:DigestRealm>Digest:F00D</g:DigestRealm></g:AMT_GeneralSettings></a:Body>";
    let mut out = [0xFFu8; 64];
    assert!(xml_extract(xml, b"DigestRealm", &mut out));
    assert_eq!(c_str(&out), b"Digest:F00D");
}

#[test]
fn xml_extract_skips_attributes() {
    let xml = b"<h:ReturnValue xmlns:h=\"x\">0</h:ReturnValue>";
    let mut out = [0u8; 16];
    assert!(xml_extract(xml, b"ReturnValue", &mut out));
    assert_eq!(c_str(&out), b"0");
}

#[test]
fn xml_extract_missing_tag() {
    let mut out = [0x55u8; 8];
    assert!(!xml_extract(b"<a>1</a><b>2</b>", b"ReturnValue", &mut out));
    assert_eq!(out[0], 0);
    assert_eq!(out[1], 0x55);
}

#[test]
fn xml_extract_truncates_value() {
    let mut out = [0u8; 4];
    assert!(xml_extract(b"<Realm>abcdefg</Realm>", b"Realm", &mut out));
    assert_eq!(&out, b"abc\0");
}

#[test]
fn general_settings_envelope() {
    let mut buf = [0u8; 2048];
    let n = build_get_general_settings(&mut buf);
    let text = std::str::from_utf8(&buf[..n]).unwrap();
    assert!(text.starts_with(SOAP_ENV_OPEN));
    assert!(text.ends_with(SOAP_ENV_CLOSE));
    assert!(text.contains("<a:Action>http://schemas.xmlsoap.org/ws/2004/09/transfer/Get</a:Action>"));
    assert!(text.contains("AMT_GeneralSettings</w:ResourceURI><a:MessageID>1</a:MessageID>"));
    assert!(text.contains("</Header><Body></Body></Envelope>"));
    assert!(SOAP_ENV_OPEN.contains("XMLSchema-instance\"xmlns:xsd"));
    assert_eq!(buf[n], 0);
}

#[test]
fn setup_envelope_carries_hash() {
    let mut buf = [0u8; 2048];
    let n = build_setup_ccm(&mut buf, b"0123456789abcdef0123456789abcdef\0");
    let text = std::str::from_utf8(&buf[..n]).unwrap();
    assert!(text.contains("<h:NetAdminPassEncryptionType>2</h:NetAdminPassEncryptionType><h:NetworkAdminPassword>0123456789abcdef0123456789abcdef</h:NetworkAdminPassword></h:Setup_INPUT></Body></Envelope>"));
}

#[test]
fn admin_password_hash() {
    let mut realm = [0u8; 128];
    realm[..11].copy_from_slice(b"Digest:A1B2");
    let mut hex = [0u8; 33];
    hash_admin_password(&realm, b"P@ssw0rd", &mut hex);
    assert_eq!(&hex[..32], b"f2f09449adff5335dc1206ccc2215f42");
    assert_eq!(hex[32], 0);
}

#[test]
fn return_value_parsing() {
    assert_eq!(parse_return_value(b"0\0"), 0);
    assert_eq!(parse_return_value(b"2056\0xyz"), 2056);
    assert_eq!(parse_return_value(b"12ab"), 12);
    assert_eq!(parse_return_value(b"x1"), 0);
    assert_eq!(parse_return_value(b"99999999999"), u32::MAX);
}

fn lsa() -> LsaCredentials {
    let mut username = [0u8; 33];
    username[..7].copy_from_slice(b"lsauser");
    let mut password = [0u8; 33];
    password[..7].copy_from_slice(b"lsapass");
    LsaCredentials { username, password }
}

fn reply(text: &[u8]) -> HttpResponse {
    let mut resp = HttpResponse::new();
    parse_response(text, text.len() as u32, &mut resp).unwrap();
    resp
}

const CHALLENGE: &[u8] = b"HTTP/1.1 401 Unauthorized\r\nWWW-Authenticate: Digest realm=\"Digest:A1B2\", nonce=\"abc123\", qop=\"auth\"\r\nContent-Length: 0\r\n\r\n";

fn ok_with(body: &str) -> HttpResponse {
    let text = format!("HTTP/1.1 200 OK\r\nContent-Length: {}\r\n\r\n{}", body.len(), body);
    reply(text.as_bytes())
}

fn post_bytes(a: CcmAction) -> Vec<u8> {
    match a {
        CcmAction::Post(r) => r,
        CcmAction::Finished(_) => panic!("expected a request"),
    }
}

#[test]
fn ccm_activation_succeeds() {
    let (mut m, first) = CcmActivation::start(&lsa(), b"P@ssw0rd");
    let first = String::from_utf8(first).unwrap();
    assert!(!first.contains("Authorization"));
    assert!(first.contains("AMT_GeneralSettings"));

    let second = String::from_utf8(post_bytes(m.on_response(&reply(CHALLENGE)))).unwrap();
    assert!(second.contains("Authorization: Digest username=\"lsauser\",realm=\"Digest:A1B2\""));
    assert!(second.contains("nc=\"00000001\""));
    assert_eq!(m.attempt, 2);

    let settings = ok_with("<g:AMT_GeneralSettings><g:DigestRealm>Digest:A1B2</g:DigestRealm></g:AMT_GeneralSettings>");
    let setup = String::from_utf8(post_bytes(m.on_response(&settings))).unwrap();
    assert!(m.stage == CcmStage::Setup);
    assert!(setup.contains("<h:NetworkAdminPassword>f2f09449adff5335dc1206ccc2215f42</h:NetworkAdminPassword>"));
    assert!(setup.contains("nc=\"00000002\""));

    let commit = String::from_utf8(post_bytes(
        m.on_response(&ok_with("<h:Setup_OUTPUT><h:ReturnValue>0</h:ReturnValue></h:Setup_OUTPUT>")),
    ))
    .unwrap();
    assert!(m.stage == CcmStage::Commit);
    assert!(commit.contains("AMT_SetupAndConfigurationService/CommitChanges</a:Action>"));
    assert!(commit.contains("<a:MessageID>3</a:MessageID>"));
    assert!(commit.contains("nc=\"00000003\""));

    match m.on_response(&ok_with("<g:CommitChanges_OUTPUT><g:ReturnValue>0</g:ReturnValue></g:CommitChanges_OUTPUT>")) {
        CcmAction::Finished(Ok(r)) => {
            assert_eq!(r.setup_return, 0);
            assert_eq!(c_str(&r.digest_realm), b"Digest:A1B2");
        }
        _ => panic!("activation should succeed"),
    }
    assert!(m.stage == CcmStage::Done);
}

#[test]
fn ccm_three_challenges_deny_access() {
    let (mut m, _) = CcmActivation::start(&lsa(), b"P@ssw0rd");
    post_bytes(m.on_response(&reply(CHALLENGE)));
    post_bytes(m.on_response(&reply(CHALLENGE)));
    match m.on_response(&reply(CHALLENGE)) {
        CcmAction::Finished(Err(Error::AccessDenied)) => {}
        _ => panic!("expected AccessDenied"),
    }
}

#[test]
fn ccm_http_error_status() {
    let (mut m, _) = CcmActivation::start(&lsa(), b"P@ssw0rd");
    match m.on_response(&reply(b"HTTP/1.1 500 Internal\r\n\r\n")) {
        CcmAction::Finished(Err(Error::HttpStatus(500))) => {}
        _ => panic!("expected HttpStatus(500)"),
    }
}

#[test]
fn ccm_missing_realm_not_found() {
    let (mut m, _) = CcmActivation::start(&lsa(), b"P@ssw0rd");
    match m.on_response(&ok_with("<g:Other>x</g:Other>")) {
        CcmAction::Finished(Err(Error::NotFound)) => {}
        _ => panic!("expected NotFound"),
    }
}

#[test]
fn ccm_setup_failure_is_device_error() {
    let (mut m, _) = CcmActivation::start(&lsa(), b"P@ssw0rd");
    post_bytes(m.on_response(&ok_with("<DigestRealm>R</DigestRealm>")));
    match m.on_response(&ok_with("<h:ReturnValue>1</h:ReturnValue>")) {
        CcmAction::Finished(Err(Error::DeviceError)) => {}
        _ => panic!("expected DeviceError"),
    }
}

#[test]
fn ccm_setup_without_return_value_is_device_error() {
    let (mut m, _) = CcmActivation::start(&lsa(), b"P@ssw0rd");
    post_bytes(m.on_response(&ok_with("<DigestRealm>R</DigestRealm>")));
    match m.on_response(&ok_with("<nothing/>")) {
        CcmAction::Finished(Err(Error::DeviceError)) => {}
        _ => panic!("expected DeviceError"),
    }
}

#[test]
fn element_read_back_under_its_suffix() {
    let mut out = [0u8; 32];
    assert!(xml_extract(b"<g:DigestRealm>Digest:0123</g:DigestRealm>", b"Realm", &mut out));
    assert_eq!(c_str(&out), b"Digest:0123");
}

#[test]
fn written_decimal_reads_back() {
    let mut buf = [0u8; 16];
    for v in [0u32, 7, 10, 2053, u32::MAX - 1] {
        let n = uefi_amt_provision::str_util::append_u32(&mut buf, 0, v);
        buf[n] = 0;
        assert_eq!(parse_return_value(&buf), v);
    }
}

#[test]
fn ccm_commit_failure_is_device_error() {
    let (mut m, _) = CcmActivation::start(&lsa(), b"P@ssw0rd");
    post_bytes(m.on_response(&ok_with("<DigestRealm>R</DigestRealm>")));
    post_bytes(m.on_response(&ok_with("<h:ReturnValue>0</h:ReturnValue>")));
    match m.on_response(&ok_with("<g:ReturnValue>2</g:ReturnValue>")) {
        CcmAction::Finished(Err(Error::DeviceError)) => {}
        _ => panic!("expected DeviceError"),
    }
}

#[test]
fn commit_changes_envelope() {
    let mut buf = [0u8; 2048];
    let n = build_commit_changes(&mut buf);
    let text = std::str::from_utf8(&buf[..n]).unwrap();
    assert!(text.starts_with(SOAP_ENV_OPEN));
    assert!(text.contains("<w:ResourceURI>http://intel.com/wbem/wscim/1/amt-schema/1/AMT_SetupAndConfigurationService</w:ResourceURI>"));
    assert!(text.ends_with("</h:CommitChanges_INPUT></Body></Envelope>"));
}
