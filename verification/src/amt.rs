//! PTHI (AMT host interface) commands: request framing and response decoding.
//! The exchange itself (send a request, receive the response) is done by the
//! HECI transport of the caller.

use vstd::prelude::*;
use crate::error::{Error, Result};

verus! {

// PTHI version
pub const PTHI_MAJOR_VERSION: u8 = 1;
pub const PTHI_MINOR_VERSION: u8 = 1;

// PTHI header sizes
pub const PTHI_HEADER_SIZE: usize = 12;
pub const PTHI_RESP_HEADER_SIZE: usize = 16;

// Command IDs
pub const PTHI_GET_CODE_VERSIONS_REQUEST: u32 = 0x0400001A;
pub const PTHI_GET_PROVISIONING_STATE_REQUEST: u32 = 0x04000011;
pub const PTHI_SET_DNS_SUFFIX_REQUEST: u32 = 0x0400002F;
pub const PTHI_GET_DNS_SUFFIX_REQUEST: u32 = 0x04000036;
pub const PTHI_GET_LAN_INTERFACE_SETTINGS_REQUEST: u32 = 0x04000048;
pub const PTHI_GET_UUID_REQUEST: u32 = 0x0400005C;
pub const PTHI_GET_LOCAL_SYSTEM_ACCOUNT_REQUEST: u32 = 0x04000067;
pub const PTHI_GET_CONTROL_MODE_REQUEST: u32 = 0x0400006B;
pub const PTHI_UNPROVISION_REQUEST: u32 = 0x04000010;

pub const MAX_DNS_SUFFIX_LEN: usize = 192;

// AMT status codes
pub const AMT_STATUS_SUCCESS: u32 = 0;

// Control mode values
pub const AMT_CONTROL_MODE_PRE_PROVISIONING: u32 = 0;
pub const AMT_CONTROL_MODE_CCM: u32 = 1;
pub const AMT_CONTROL_MODE_ACM: u32 = 2;

// LSA field lengths
pub const LSA_USERNAME_LEN: usize = 33;
pub const LSA_PASSWORD_LEN: usize = 33;

/// Response buffer sizes used for each command.
pub const CONTROL_MODE_RESP_SIZE: usize = 20;
pub const PROVISIONING_STATE_RESP_SIZE: usize = 20;
pub const UUID_RESP_SIZE: usize = 32;
pub const LSA_RESP_SIZE: usize = 256;
pub const CODE_VERSIONS_RESP_SIZE: usize = 4096;
pub const SET_DNS_SUFFIX_RESP_SIZE: usize = 32;
pub const DNS_SUFFIX_RESP_SIZE: usize = 1100;
pub const LAN_SETTINGS_RESP_SIZE: usize = 64;
pub const UNPROVISION_RESP_SIZE: usize = 64;

pub struct LsaCredentials {
    pub username: [u8; 33],
    pub password: [u8; 33],
}

// ---------------------------------------------------------------------------
// Byte-level vocabulary
// ---------------------------------------------------------------------------

/// Little-endian u32 at `i`.
pub open spec fn le32_at(b: Seq<u8>, i: int) -> u32 {
    (b[i] as int + 0x100 * b[i + 1] as int + 0x1_0000 * b[i + 2] as int + 0x100_0000 * b[i + 3] as int) as u32
}

/// Little-endian u16 at `i`.
pub open spec fn le16_at(b: Seq<u8>, i: int) -> u16 {
    (b[i] as int + 0x100 * b[i + 1] as int) as u16
}

/// The four little-endian bytes of `v`.
pub open spec fn le32_bytes(v: u32) -> Seq<u8> {
    seq![(v % 0x100) as u8, ((v / 0x100) % 0x100) as u8, ((v / 0x1_0000) % 0x100) as u8, (v / 0x100_0000) as u8]
}

/// A PTHI request header: version 1.1, two reserved bytes, command, payload length.
pub open spec fn pthi_header(command: u32, payload_length: u32) -> Seq<u8> {
    seq![PTHI_MAJOR_VERSION, PTHI_MINOR_VERSION, 0u8, 0u8] + le32_bytes(command) + le32_bytes(payload_length)
}

pub open spec fn zeros(n: nat) -> Seq<u8> {
    Seq::new(n, |k: int| 0u8)
}

/// `min(a, b)`.
pub open spec fn min(a: int, b: int) -> int {
    if a <= b {
        a
    } else {
        b
    }
}

fn le32(b: &[u8], i: usize) -> (r: u32)
    requires
        i + 4 <= b@.len(),
    ensures
        r == le32_at(b@, i as int),
{
    (b[i] as u32) + (b[i + 1] as u32) * 0x100 + (b[i + 2] as u32) * 0x1_0000 + (b[i + 3] as u32) * 0x100_0000
}

fn le16(b: &[u8], i: usize) -> (r: u16)
    requires
        i + 2 <= b@.len(),
    ensures
        r == le16_at(b@, i as int),
{
    (b[i] as u16) + (b[i + 1] as u16) * 0x100
}

fn push_le32(v: &mut Vec<u8>, x: u32)
    ensures
        final(v)@ == old(v)@ + le32_bytes(x),
{
    v.push((x % 0x100) as u8);
    v.push(((x / 0x100) % 0x100) as u8);
    v.push(((x / 0x1_0000) % 0x100) as u8);
    v.push((x / 0x100_0000) as u8);
    assert(v@ =~= old(v)@ + le32_bytes(x));
}

fn push_zeros(v: &mut Vec<u8>, n: usize)
    ensures
        final(v)@ == old(v)@ + zeros(n as nat),
{
    let mut i: usize = 0;
    while i < n
        invariant
            i <= n,
            v@ == old(v)@ + zeros(i as nat),
        decreases n - i,
    {
        v.push(0);
        i += 1;
        assert(v@ =~= old(v)@ + zeros(i as nat));
    }
}

// ---------------------------------------------------------------------------
// Requests
// ---------------------------------------------------------------------------

/// Build a PTHI request header (12 bytes) into `buf` at offset 0.
pub fn make_header(buf: &mut [u8], command: u32, payload_length: u32)
    requires
        old(buf)@.len() >= PTHI_HEADER_SIZE,
    ensures
        final(buf)@ == crate::str_util::splice(old(buf)@, 0, pthi_header(command, payload_length)),
{
    buf[0] = PTHI_MAJOR_VERSION;
    buf[1] = PTHI_MINOR_VERSION;
    buf[2] = 0;
    buf[3] = 0;
    buf[4] = (command % 0x100) as u8;
    buf[5] = ((command / 0x100) % 0x100) as u8;
    buf[6] = ((command / 0x1_0000) % 0x100) as u8;
    buf[7] = (command / 0x100_0000) as u8;
    buf[8] = (payload_length % 0x100) as u8;
    buf[9] = ((payload_length / 0x100) % 0x100) as u8;
    buf[10] = ((payload_length / 0x1_0000) % 0x100) as u8;
    buf[11] = (payload_length / 0x100_0000) as u8;
    assert(buf@ =~= crate::str_util::splice(old(buf)@, 0, pthi_header(command, payload_length)));
}

/// A request made of the header and `payload_length` zero bytes.
fn zero_payload_request(command: u32, payload_length: u32) -> (r: Vec<u8>)
    requires
        payload_length <= 0x1000,
    ensures
        r@ == pthi_header(command, payload_length) + zeros(payload_length as nat),
{
    let mut req: Vec<u8> = Vec::new();
    push_zeros(&mut req, PTHI_HEADER_SIZE + payload_length as usize);
    make_header(req.as_mut_slice(), command, payload_length);
    assert(req@ =~= pthi_header(command, payload_length) + zeros(payload_length as nat));
    req
}

/// GetControlMode request.
pub fn control_mode_request() -> (r: Vec<u8>)
    ensures
        r@ == pthi_header(PTHI_GET_CONTROL_MODE_REQUEST, 0),
{
    let r = zero_payload_request(PTHI_GET_CONTROL_MODE_REQUEST, 0);
    assert(r@ =~= pthi_header(PTHI_GET_CONTROL_MODE_REQUEST, 0));
    r
}

/// GetProvisioningState request.
pub fn provisioning_state_request() -> (r: Vec<u8>)
    ensures
        r@ == pthi_header(PTHI_GET_PROVISIONING_STATE_REQUEST, 0),
{
    let r = zero_payload_request(PTHI_GET_PROVISIONING_STATE_REQUEST, 0);
    assert(r@ =~= pthi_header(PTHI_GET_PROVISIONING_STATE_REQUEST, 0));
    r
}

/// GetUUID request.
pub fn uuid_request() -> (r: Vec<u8>)
    ensures
        r@ == pthi_header(PTHI_GET_UUID_REQUEST, 0),
{
    let r = zero_payload_request(PTHI_GET_UUID_REQUEST, 0);
    assert(r@ =~= pthi_header(PTHI_GET_UUID_REQUEST, 0));
    r
}

/// GetLocalSystemAccount request: header with length 40 and 40 reserved bytes.
pub fn local_system_account_request() -> (r: Vec<u8>)
    ensures
        r@ == pthi_header(PTHI_GET_LOCAL_SYSTEM_ACCOUNT_REQUEST, 40) + zeros(40),
{
    zero_payload_request(PTHI_GET_LOCAL_SYSTEM_ACCOUNT_REQUEST, 40)
}

/// GetCodeVersions request.
pub fn code_versions_request() -> (r: Vec<u8>)
    ensures
        r@ == pthi_header(PTHI_GET_CODE_VERSIONS_REQUEST, 0),
{
    let r = zero_payload_request(PTHI_GET_CODE_VERSIONS_REQUEST, 0);
    assert(r@ =~= pthi_header(PTHI_GET_CODE_VERSIONS_REQUEST, 0));
    r
}

/// GetDNSSuffix request.
pub fn dns_suffix_request() -> (r: Vec<u8>)
    ensures
        r@ == pthi_header(PTHI_GET_DNS_SUFFIX_REQUEST, 0),
{
    let r = zero_payload_request(PTHI_GET_DNS_SUFFIX_REQUEST, 0);
    assert(r@ =~= pthi_header(PTHI_GET_DNS_SUFFIX_REQUEST, 0));
    r
}

/// SetPKIDNSSuffix request: header, u16 length, suffix bytes. Suffixes longer
/// than `MAX_DNS_SUFFIX_LEN` are refused.
pub fn set_dns_suffix_request(suffix: &[u8]) -> (r: Result<Vec<u8>>)
    ensures
        suffix@.len() > MAX_DNS_SUFFIX_LEN ==> r == Err::<Vec<u8>, Error>(Error::BufferTooSmall),
        suffix@.len() <= MAX_DNS_SUFFIX_LEN ==> (r matches Ok(req) && req@ == pthi_header(
            PTHI_SET_DNS_SUFFIX_REQUEST,
            (2 + suffix@.len()) as u32,
        ) + seq![(suffix@.len() % 0x100) as u8, (suffix@.len() / 0x100) as u8] + suffix@),
{
    if suffix.len() > MAX_DNS_SUFFIX_LEN {
        return Err(Error::BufferTooSmall);
    }
    let payload_len = 2 + suffix.len();
    let mut req = zero_payload_request(PTHI_SET_DNS_SUFFIX_REQUEST, payload_len as u32);
    let n = suffix.len();
    req.set(12, (n % 0x100) as u8);
    req.set(13, (n / 0x100) as u8);
    let mut i: usize = 0;
    while i < n
        invariant
            i <= n,
            n == suffix@.len(),
            n <= MAX_DNS_SUFFIX_LEN,
            req@.len() == 14 + n,
            req@ == pthi_header(PTHI_SET_DNS_SUFFIX_REQUEST, (2 + n) as u32) + seq![
                (n % 0x100) as u8,
                (n / 0x100) as u8,
            ] + suffix@.take(i as int) + zeros((n - i) as nat),
        decreases n - i,
    {
        req.set(14 + i, suffix[i]);
        i += 1;
        assert(req@ =~= pthi_header(PTHI_SET_DNS_SUFFIX_REQUEST, (2 + n) as u32) + seq![
            (n % 0x100) as u8,
            (n / 0x100) as u8,
        ] + suffix@.take(i as int) + zeros((n - i) as nat));
    }
    assert(suffix@.take(n as int) =~= suffix@);
    assert(req@ =~= pthi_header(PTHI_SET_DNS_SUFFIX_REQUEST, (2 + n) as u32) + seq![
        (n % 0x100) as u8,
        (n / 0x100) as u8,
    ] + suffix@);
    Ok(req)
}

/// GetLANInterfaceSettings request for the wired (index 0) or wireless (index 1) interface.
pub fn lan_interface_settings_request(wireless: bool) -> (r: Vec<u8>)
    ensures
        r@ == pthi_header(PTHI_GET_LAN_INTERFACE_SETTINGS_REQUEST, 4) + le32_bytes(
            if wireless {
                1
            } else {
                0
            },
        ),
{
    let mut req: Vec<u8> = Vec::new();
    push_zeros(&mut req, PTHI_HEADER_SIZE);
    make_header(req.as_mut_slice(), PTHI_GET_LAN_INTERFACE_SETTINGS_REQUEST, 4);
    let idx: u32 = if wireless { 1 } else { 0 };
    push_le32(&mut req, idx);
    assert(req@.take(12) =~= pthi_header(PTHI_GET_LAN_INTERFACE_SETTINGS_REQUEST, 4));
    assert(req@ =~= pthi_header(PTHI_GET_LAN_INTERFACE_SETTINGS_REQUEST, 4) + le32_bytes(idx));
    req
}

/// Unprovision request: header with length 4 and mode 0 (full unprovision).
pub fn unprovision_request() -> (r: Vec<u8>)
    ensures
        r@ == pthi_header(PTHI_UNPROVISION_REQUEST, 4) + zeros(4),
{
    zero_payload_request(PTHI_UNPROVISION_REQUEST, 4)
}

// ---------------------------------------------------------------------------
// Responses
// ---------------------------------------------------------------------------

/// Checks a PTHI response of `received` bytes held in `resp`: it must hold the
/// 16-byte response header, and its status must be success.
pub fn check_response(resp: &[u8], received: u32) -> (r: Result<u32>)
    requires
        resp@.len() >= PTHI_RESP_HEADER_SIZE,
    ensures
        received < PTHI_RESP_HEADER_SIZE ==> r == Err::<u32, Error>(Error::DeviceError),
        received >= PTHI_RESP_HEADER_SIZE && le32_at(resp@, 12) != AMT_STATUS_SUCCESS ==> r == Err::<
            u32,
            Error,
        >(Error::AmtStatus(le32_at(resp@, 12))),
        received >= PTHI_RESP_HEADER_SIZE && le32_at(resp@, 12) == AMT_STATUS_SUCCESS ==> r == Ok::<
            u32,
            Error,
        >(received),
{
    if (received as usize) < PTHI_RESP_HEADER_SIZE {
        return Err(Error::DeviceError);
    }
    let status = le32(resp, 12);
    if status != AMT_STATUS_SUCCESS {
        return Err(Error::AmtStatus(status));
    }
    Ok(received)
}

/// What `check_response` answers, as a spec.
pub open spec fn response_status(resp: Seq<u8>, received: u32) -> Result<()> {
    if received < PTHI_RESP_HEADER_SIZE {
        Err(Error::DeviceError)
    } else if le32_at(resp, 12) != AMT_STATUS_SUCCESS {
        Err(Error::AmtStatus(le32_at(resp, 12)))
    } else {
        Ok(())
    }
}

/// The u32 that follows the response header (control mode, provisioning state).
fn u32_after_header(resp: &[u8], received: u32) -> (r: Result<u32>)
    requires
        resp@.len() >= 20,
    ensures
        match response_status(resp@, received) {
            Err(e) => r == Err::<u32, Error>(e),
            Ok(_) => r == Ok::<u32, Error>(le32_at(resp@, 16)),
        },
{
    match check_response(resp, received) {
        Err(e) => Err(e),
        Ok(_) => Ok(le32(resp, 16)),
    }
}

/// GetControlMode response: the control mode.
pub fn parse_control_mode(resp: &[u8], received: u32) -> (r: Result<u32>)
    requires
        resp@.len() >= CONTROL_MODE_RESP_SIZE,
    ensures
        match response_status(resp@, received) {
            Err(e) => r == Err::<u32, Error>(e),
            Ok(_) => r == Ok::<u32, Error>(le32_at(resp@, 16)),
        },
{
    u32_after_header(resp, received)
}

/// GetProvisioningState response: the provisioning state.
pub fn parse_provisioning_state(resp: &[u8], received: u32) -> (r: Result<u32>)
    requires
        resp@.len() >= PROVISIONING_STATE_RESP_SIZE,
    ensures
        match response_status(resp@, received) {
            Err(e) => r == Err::<u32, Error>(e),
            Ok(_) => r == Ok::<u32, Error>(le32_at(resp@, 16)),
        },
{
    u32_after_header(resp, received)
}

/// GetUUID response: the 16 UUID bytes.
pub fn parse_uuid(resp: &[u8], received: u32) -> (r: Result<[u8; 16]>)
    requires
        resp@.len() >= UUID_RESP_SIZE,
    ensures
        match response_status(resp@, received) {
            Err(e) => r == Err::<[u8; 16], Error>(e),
            Ok(_) => r matches Ok(u) && u@ == resp@.subrange(16, 32),
        },
{
    match check_response(resp, received) {
        Err(e) => Err(e),
        Ok(_) => {
            let mut uuid = [0u8; 16];
            let mut i: usize = 0;
            while i < 16
                invariant
                    i <= 16,
                    resp@.len() >= 32,
                    forall|t: int| 0 <= t < i ==> uuid@[t] == resp@[16 + t],
                decreases 16 - i,
            {
                uuid[i] = resp[16 + i];
                i += 1;
            }
            assert(uuid@ =~= resp@.subrange(16, 32));
            Ok(uuid)
        },
    }
}

/// A 33-byte field copied from `data[at..at+33]` with its last byte forced to NUL.
fn lsa_field(data: &[u8], at: usize) -> (r: [u8; 33])
    requires
        at + 33 <= data.len(),
    ensures
        r@ == data@.subrange(at as int, at + 32).push(0u8),
{
    let mut f = [0u8; 33];
    let mut i: usize = 0;
    while i < 32
        invariant
            i <= 32,
            at + 33 <= data.len(),
            f@[32] == 0u8,
            forall|t: int| 0 <= t < i ==> f@[t] == data@[at + t],
        decreases 32 - i,
    {
        f[i] = data[at + i];
        i += 1;
    }
    assert(f@ =~= data@.subrange(at as int, at + 32).push(0u8));
    f
}

/// GetLocalSystemAccount response: username and password, 33 bytes each and
/// NUL terminated.
pub fn parse_local_system_account(resp: &[u8], received: u32) -> (r: Result<LsaCredentials>)
    requires
        resp@.len() >= PTHI_RESP_HEADER_SIZE + LSA_USERNAME_LEN + LSA_PASSWORD_LEN,
    ensures
        match response_status(resp@, received) {
            Err(e) => r == Err::<LsaCredentials, Error>(e),
            Ok(_) => if received < PTHI_RESP_HEADER_SIZE + LSA_USERNAME_LEN + LSA_PASSWORD_LEN {
                r == Err::<LsaCredentials, Error>(Error::DeviceError)
            } else {
                r matches Ok(c) && c.username@ == resp@.subrange(16, 48).push(0u8) && c.password@
                    == resp@.subrange(49, 81).push(0u8)
            },
        },
{
    match check_response(resp, received) {
        Err(e) => Err(e),
        Ok(resp_len) => {
            if (resp_len as usize) < PTHI_RESP_HEADER_SIZE + LSA_USERNAME_LEN + LSA_PASSWORD_LEN {
                return Err(Error::DeviceError);
            }
            let username = lsa_field(resp, 16);
            let password = lsa_field(resp, 49);
            Ok(LsaCredentials { username, password })
        },
    }
}

/// GetDNSSuffix response: the suffix (at most 255 bytes, in a 256-byte buffer) and its length.
pub fn parse_dns_suffix(resp: &[u8], received: u32) -> (r: Result<([u8; 256], usize)>)
    requires
        resp@.len() >= PTHI_RESP_HEADER_SIZE,
        response_status(resp@, received) is Ok ==> received <= resp@.len(),
    ensures
        match response_status(resp@, received) {
            Err(e) => r == Err::<([u8; 256], usize), Error>(e),
            Ok(_) => {
                let data = resp@.subrange(16, received as int);
                r matches Ok((s, n)) && if data.len() < 2 {
                    n == 0 && s@ == zeros(256)
                } else {
                    &&& n == min(min(le16_at(data, 0) as int, 255), data.len() - 2)
                    &&& s@ == data.subrange(2, 2 + n) + zeros((256 - n) as nat)
                }
            },
        },
{
    match check_response(resp, received) {
        Err(e) => Err(e),
        Ok(resp_len) => {
            let end = resp_len as usize;
            let mut suffix = [0u8; 256];
            if end - 16 < 2 {
                assert(suffix@ =~= zeros(256));
                return Ok((suffix, 0));
            }
            let str_len = le16(resp, 16) as usize;
            let mut copy_len = if str_len < 255 { str_len } else { 255 };
            if copy_len > end - 16 - 2 {
                copy_len = end - 16 - 2;
            }
            let mut i: usize = 0;
            while i < copy_len
                invariant
                    i <= copy_len,
                    copy_len <= 255,
                    18 + copy_len <= end <= resp@.len(),
                    forall|t: int| 0 <= t < i ==> suffix@[t] == resp@[18 + t],
                    forall|t: int| i <= t < 256 ==> suffix@[t] == 0u8,
                decreases copy_len - i,
            {
                suffix[i] = resp[18 + i];
                i += 1;
            }
            let ghost data = resp@.subrange(16, received as int);
            assert(le16_at(data, 0) == le16_at(resp@, 16));
            assert(suffix@ =~= data.subrange(2, 2 + copy_len) + zeros((256 - copy_len) as nat));
            Ok((suffix, copy_len))
        },
    }
}

pub struct LanInterfaceSettings {
    pub ipv4_addr: [u8; 4],
    pub dhcp_enabled: bool,
    pub dhcp_mode: u8,
    pub link_status: u8,
    pub mac_addr: [u8; 6],
}

/// GetLANInterfaceSettings response: the IPv4 address (bytes 4..8, most
/// significant first), DHCP state, DHCP mode, link status and MAC address.
pub fn parse_lan_interface_settings(resp: &[u8], received: u32) -> (r: Result<LanInterfaceSettings>)
    requires
        resp@.len() >= PTHI_RESP_HEADER_SIZE,
        response_status(resp@, received) is Ok ==> received <= resp@.len(),
    ensures
        match response_status(resp@, received) {
            Err(e) => r is Err && r == Err::<LanInterfaceSettings, Error>(e),
            Ok(_) => {
                let data = resp@.subrange(16, received as int);
                if data.len() < 12 {
                    r is Err && r == Err::<LanInterfaceSettings, Error>(Error::DeviceError)
                } else {
                    r matches Ok(s) && s.ipv4_addr@ == seq![data[7], data[6], data[5], data[4]]
                        && s.dhcp_enabled == (le32_at(data, 8) == 1) && s.dhcp_mode == (if data.len()
                        > 12 {
                        data[12]
                    } else {
                        0u8
                    }) && s.link_status == (if data.len() > 13 {
                        data[13]
                    } else {
                        0u8
                    }) && s.mac_addr@ == (if data.len() >= 20 {
                        data.subrange(14, 20)
                    } else {
                        zeros(6)
                    })
                }
            },
        },
{
    match check_response(resp, received) {
        Err(e) => Err(e),
        Ok(resp_len) => {
            let end = resp_len as usize;
            let ghost data = resp@.subrange(16, received as int);
            if end - 16 < 12 {
                return Err(Error::DeviceError);
            }
            let dhcp = le32(resp, 24);
            assert(le32_at(data, 8) == le32_at(resp@, 24));
            let mut settings = LanInterfaceSettings {
                ipv4_addr: [resp[23], resp[22], resp[21], resp[20]],
                dhcp_enabled: dhcp == 1,
                dhcp_mode: 0,
                link_status: 0,
                mac_addr: [0; 6],
            };
            if end - 16 > 12 {
                settings.dhcp_mode = resp[28];
            }
            if end - 16 > 13 {
                settings.link_status = resp[29];
            }
            if end - 16 >= 20 {
                settings.mac_addr = [resp[30], resp[31], resp[32], resp[33], resp[34], resp[35]];
                assert(settings.mac_addr@ =~= data.subrange(14, 20));
            } else {
                assert(settings.mac_addr@ =~= zeros(6));
            }
            assert(settings.ipv4_addr@ =~= seq![data[7], data[6], data[5], data[4]]);
            Ok(settings)
        },
    }
}

/// Result from GetCodeVersions: FW version, build number, SKU, etc.
pub struct CodeVersionEntry {
    pub description: [u8; 20],
    pub desc_len: usize,
    pub version: [u8; 20],
    pub ver_len: usize,
}

pub struct CodeVersions {
    pub bios_version: [u8; 65],
    pub entries: Vec<CodeVersionEntry>,
    pub count: usize,
}

/// Offset of entry `i` in the response data (after the BIOS version and the count).
pub open spec fn entry_offset(i: int) -> int {
    69 + 44 * i
}

/// A bounded-length string field (u16 length, 20 bytes) at `off`: its length
/// clipped to 20, and its bytes zero filled to 20.
pub open spec fn field_len(data: Seq<u8>, off: int) -> int {
    min(le16_at(data, off) as int, 20)
}

pub open spec fn field_bytes(data: Seq<u8>, off: int) -> Seq<u8> {
    data.subrange(off + 2, off + 2 + field_len(data, off)) + zeros((20 - field_len(data, off)) as nat)
}

/// Entry `i` of the response data, as the parser stores it.
pub open spec fn entry_matches_data(e: CodeVersionEntry, data: Seq<u8>, i: int) -> bool {
    let off = entry_offset(i);
    &&& e.desc_len == field_len(data, off)
    &&& e.description@ == field_bytes(data, off)
    &&& e.ver_len == field_len(data, off + 22)
    &&& e.version@ == field_bytes(data, off + 22)
}

/// How many entries the parser keeps: the announced count, at most 20, and
/// no more than the complete entries present.
pub open spec fn entry_count(data: Seq<u8>) -> int {
    if data.len() < 69 {
        0
    } else {
        min(min(le32_at(data, 65) as int, 20), (data.len() - 69) / 44)
    }
}

impl CodeVersionEntry {
    pub open spec fn wf(&self) -> bool {
        self.desc_len <= 20 && self.ver_len <= 20
    }
}

impl CodeVersions {
    pub open spec fn wf(&self) -> bool {
        &&& self.count == self.entries@.len()
        &&& self.count <= 20
        &&& forall|i: int| 0 <= i < self.count ==> (#[trigger] self.entries@[i]).wf()
    }

    /// Index of the first entry at or after `i` whose description is `key`.
    pub open spec fn first_match(&self, key: Seq<u8>, i: int) -> Option<int>
        decreases self.count - i,
    {
        if i < 0 || i >= self.count {
            None
        } else if self.entries@[i].desc_len == key.len() && self.entries@[i].description@.take(
            self.entries@[i].desc_len as int,
        ) == key {
            Some(i)
        } else {
            self.first_match(key, i + 1)
        }
    }

    /// The version of the first entry whose description equals `key`.
    pub fn find(&self, key: &[u8]) -> (r: Option<&[u8]>)
        requires
            self.wf(),
        ensures
            match self.first_match(key@, 0) {
                Some(i) => r matches Some(v) && v@ == self.entries@[i].version@.take(
                    self.entries@[i].ver_len as int,
                ),
                None => r is None,
            },
    {
        let mut i: usize = 0;
        while i < self.count
            invariant
                self.wf(),
                i <= self.count,
                self.first_match(key@, 0) == self.first_match(key@, i as int),
            decreases self.count - i,
        {
            let e = &self.entries[i];
            if e.desc_len == key.len() && slice_eq(&e.description[0..e.desc_len], key) {
                assert(e.description@.subrange(0, e.desc_len as int) =~= e.description@.take(
                    e.desc_len as int,
                ));
                return Some(&e.version[0..e.ver_len]);
            }
            assert(e.description@.subrange(0, e.desc_len as int) =~= e.description@.take(
                e.desc_len as int,
            ));
            i += 1;
        }
        None
    }
}

fn slice_eq(a: &[u8], b: &[u8]) -> (r: bool)
    ensures
        r == (a@ == b@),
{
    if a.len() != b.len() {
        return false;
    }
    let mut i: usize = 0;
    while i < a.len()
        invariant
            a@.len() == b@.len(),
            i <= a@.len(),
            forall|t: int| 0 <= t < i ==> a@[t] == b@[t],
        decreases a@.len() - i,
    {
        if a[i] != b[i] {
            return false;
        }
        i += 1;
    }
    assert(a@ =~= b@);
    true
}


/// The description of entry `e`: its first `desc_len` bytes.
pub open spec fn entry_description(e: CodeVersionEntry) -> Seq<u8> {
    e.description@.take(e.desc_len as int)
}

/// `find` looks descriptions up exactly: the entry it picks is the first
/// whose description (its first `desc_len` bytes) equals `key` byte for byte,
/// so an entry whose description merely starts with `key` (say "AMTApps"
/// for "AMT") is never picked; it answers `None` exactly when no entry's
/// description equals `key`.
pub proof fn lemma_find_exact(cv: CodeVersions, key: Seq<u8>)
    requires
        cv.wf(),
    ensures
        match cv.first_match(key, 0) {
            Some(i) => {
                &&& 0 <= i < cv.count
                &&& entry_description(cv.entries@[i]) == key
                &&& cv.entries@[i].desc_len == key.len()
                &&& forall|j: int| 0 <= j < i ==> entry_description(#[trigger] cv.entries@[j]) != key
            },
            None => forall|j: int| 0 <= j < cv.count ==> entry_description(#[trigger] cv.entries@[j]) != key,
        },
{
    lemma_first_match_from(cv, key, 0);
}

proof fn lemma_first_match_from(cv: CodeVersions, key: Seq<u8>, i: int)
    requires
        cv.wf(),
        0 <= i,
    ensures
        match cv.first_match(key, i) {
            Some(k) => {
                &&& i <= k < cv.count
                &&& entry_description(cv.entries@[k]) == key
                &&& cv.entries@[k].desc_len == key.len()
                &&& forall|j: int| i <= j < k ==> entry_description(#[trigger] cv.entries@[j]) != key
            },
            None => forall|j: int| i <= j < cv.count ==> entry_description(#[trigger] cv.entries@[j]) != key,
        },
    decreases cv.count - i,
{
    if i < cv.count {
        let e = cv.entries@[i];
        assert(e.wf());
        if entry_description(e) == key {
            assert(e.description@.take(e.desc_len as int).len() == e.desc_len);
        } else {
            lemma_first_match_from(cv, key, i + 1);
        }
    }
}

/// A 20-byte string field of the code-versions response at `off`.
fn read_field(data: &[u8], off: usize) -> (r: ([u8; 20], usize))
    requires
        off + 22 <= data@.len(),
    ensures
        r.1 == field_len(data@, off as int),
        r.0@ == field_bytes(data@, off as int),
{
    let len = le16(data, off) as usize;
    let n = if len < 20 { len } else { 20 };
    let mut f = [0u8; 20];
    let mut i: usize = 0;
    while i < n
        invariant
            i <= n <= 20,
            off + 22 <= data.len(),
            forall|t: int| 0 <= t < i ==> f@[t] == data@[off + 2 + t],
            forall|t: int| i <= t < 20 ==> f@[t] == 0u8,
        decreases n - i,
    {
        f[i] = data[off + 2 + i];
        i += 1;
    }
    assert(f@ =~= field_bytes(data@, off as int));
    (f, n)
}

/// GetCodeVersions response: BIOS version, then up to 20 (description, version) entries.
pub fn parse_code_versions(resp: &[u8], received: u32) -> (r: Result<CodeVersions>)
    requires
        resp@.len() >= PTHI_RESP_HEADER_SIZE,
        response_status(resp@, received) is Ok ==> received <= resp@.len(),
    ensures
        match response_status(resp@, received) {
            Err(e) => r is Err && r == Err::<CodeVersions, Error>(e),
            Ok(_) => {
                let data = resp@.subrange(16, received as int);
                r matches Ok(cv) && {
                    &&& cv.wf()
                    &&& cv.bios_version@ == (if data.len() < 65 {
                        zeros(65)
                    } else {
                        data.subrange(0, 65)
                    })
                    &&& cv.count == entry_count(data)
                    &&& forall|i: int| 0 <= i < cv.count ==> entry_matches_data(
                        #[trigger] cv.entries@[i],
                        data,
                        i,
                    )
                }
            },
        },
{
    match check_response(resp, received) {
        Err(e) => Err(e),
        Ok(resp_len) => {
            let data = &resp[16..resp_len as usize];
            let mut cv = CodeVersions { bios_version: [0; 65], entries: Vec::new(), count: 0 };
            if data.len() < 65 {
                assert(cv.bios_version@ =~= zeros(65));
                return Ok(cv);
            }
            let mut i: usize = 0;
            while i < 65
                invariant
                    i <= 65,
                    data@.len() >= 65,
                    cv.count == 0 && cv.entries@.len() == 0,
                    forall|t: int| 0 <= t < i ==> cv.bios_version@[t] == data@[t],
                decreases 65 - i,
            {
                cv.bios_version[i] = data[i];
                i += 1;
            }
            assert(cv.bios_version@ =~= data@.subrange(0, 65));
            if data.len() < 69 {
                return Ok(cv);
            }
            let versions_count = le32(data, 65);
            let n: usize = if versions_count < 20 { versions_count as usize } else { 20 };
            let mut k: usize = 0;
            let mut offset: usize = 69;
            while k < n
                invariant_except_break
                    k <= n <= 20,
                    data@.len() >= 69,
                    offset == entry_offset(k as int),
                    cv.count == k && cv.entries@.len() == k,
                    cv.bios_version@ == data@.subrange(0, 65),
                    forall|t: int| 0 <= t < k ==> entry_matches_data(#[trigger] cv.entries@[t], data@, t),
                    forall|t: int| 0 <= t < k ==> (#[trigger] cv.entries@[t]).wf(),
                    k as int <= (data@.len() - 69) / 44,
                    n == min(le32_at(data@, 65) as int, 20),
                ensures
                    cv.count == entry_count(data@),
                    cv.count == cv.entries@.len(),
                    cv.bios_version@ == data@.subrange(0, 65),
                    forall|t: int| 0 <= t < cv.count ==> entry_matches_data(#[trigger] cv.entries@[t], data@, t),
                    forall|t: int| 0 <= t < cv.count ==> (#[trigger] cv.entries@[t]).wf(),
                    cv.count <= 20,
                decreases n - k,
            {
                if offset + 44 > data.len() {
                    assert((data@.len() - 69) / 44 <= k) by (nonlinear_arith)
                        requires
                            69 + 44 * k + 44 > data@.len(),
                            data@.len() >= 69,
                    ;
                    break;
                }
                let (description, desc_len) = read_field(data, offset);
                let (version, ver_len) = read_field(data, offset + 22);
                cv.entries.push(CodeVersionEntry { description, desc_len, version, ver_len });
                cv.count = cv.count + 1;
                offset = offset + 44;
                k += 1;
            }
            Ok(cv)
        },
    }
}

/// Human-readable control mode.
pub fn control_mode_str(mode: u32) -> (r: &'static str)
    ensures
        mode == AMT_CONTROL_MODE_PRE_PROVISIONING ==> r@ == "Pre-Provisioning"@,
        mode == AMT_CONTROL_MODE_CCM ==> r@ == "Client Control Mode (CCM)"@,
        mode == AMT_CONTROL_MODE_ACM ==> r@ == "Admin Control Mode (ACM)"@,
        mode > AMT_CONTROL_MODE_ACM ==> r@ == "Unknown"@,
{
    if mode == AMT_CONTROL_MODE_PRE_PROVISIONING {
        "Pre-Provisioning"
    } else if mode == AMT_CONTROL_MODE_CCM {
        "Client Control Mode (CCM)"
    } else if mode == AMT_CONTROL_MODE_ACM {
        "Admin Control Mode (ACM)"
    } else {
        "Unknown"
    }
}

} // verus!
