//! WS-Management over HTTP: the SOAP requests of Client Control Mode
//! activation, the XML values read from their replies, and the activation
//! itself as a state machine whose transport is left to the caller.

use vstd::prelude::*;
use vstd::string::StringSliceAdditionalSpecFns;
use crate::amt::LsaCredentials;
use crate::error::{Error, Result};
use crate::http::{
    challenged, copy_str, decimal_run, digest_from_challenge, digest_hex, posted, post_request,
    post_request_text, zeros, DigestAuth, DigestAuthView, HttpResponse,
};
use crate::md5::{hex_of, md5};
use crate::str_util::{
    append_bytes, ascii_len, bytes_equal_at, c_len, c_str, fit, lemma_c_len, lemma_c_len_unique, push_bytes,
    push_c_str,
    store_value, stored_bounded, written_text,
};
use crate::http::c_copied;

verus! {

/// Opening of every SOAP envelope.
pub const SOAP_ENV_OPEN: &'static str = "<?xml version=\"1.0\" encoding=\"utf-8\"?>\
<Envelope xmlns:xsi=\"http://www.w3.org/2001/XMLSchema-instance\"\
 xmlns:xsd=\"http://www.w3.org/2001/XMLSchema\"\
 xmlns:a=\"http://schemas.xmlsoap.org/ws/2004/08/addressing\"\
 xmlns:w=\"http://schemas.dmtf.org/wbem/wsman/1/wsman.xsd\"\
 xmlns=\"http://www.w3.org/2003/05/soap-envelope\">";

pub const SOAP_ENV_CLOSE: &'static str = "</Envelope>";

/// Header and empty body of the AMT_GeneralSettings Get request.
pub const GENERAL_SETTINGS_REQUEST: &'static str = "<Header>\
<a:Action>http://schemas.xmlsoap.org/ws/2004/09/transfer/Get</a:Action>\
<a:To>/wsman</a:To>\
<w:ResourceURI>http://intel.com/wbem/wscim/1/amt-schema/1/AMT_GeneralSettings</w:ResourceURI>\
<a:MessageID>1</a:MessageID>\
<a:ReplyTo><a:Address>http://schemas.xmlsoap.org/ws/2004/08/addressing/role/anonymous</a:Address></a:ReplyTo>\
<w:OperationTimeout>PT60S</w:OperationTimeout>\
</Header>\
<Body></Body>";

/// Header and body of the IPS_HostBasedSetupService Setup request, up to the
/// admin password hash.
pub const SETUP_REQUEST_HEAD: &'static str = "<Header>\
<a:Action>http://intel.com/wbem/wscim/1/ips-schema/1/IPS_HostBasedSetupService/Setup</a:Action>\
<a:To>/wsman</a:To>\
<w:ResourceURI>http://intel.com/wbem/wscim/1/ips-schema/1/IPS_HostBasedSetupService</w:ResourceURI>\
<a:MessageID>2</a:MessageID>\
<a:ReplyTo><a:Address>http://schemas.xmlsoap.org/ws/2004/08/addressing/role/anonymous</a:Address></a:ReplyTo>\
<w:OperationTimeout>PT60S</w:OperationTimeout>\
</Header>\
<Body>\
<h:Setup_INPUT xmlns:h=\"http://intel.com/wbem/wscim/1/ips-schema/1/IPS_HostBasedSetupService\">\
<h:NetAdminPassEncryptionType>2</h:NetAdminPassEncryptionType>\
<h:NetworkAdminPassword>";

/// Header and body of the AMT_SetupAndConfigurationService CommitChanges request.
pub const COMMIT_CHANGES_REQUEST: &'static str = "<Header>\
<a:Action>http://intel.com/wbem/wscim/1/amt-schema/1/AMT_SetupAndConfigurationService/CommitChanges</a:Action>\
<a:To>/wsman</a:To>\
<w:ResourceURI>http://intel.com/wbem/wscim/1/amt-schema/1/AMT_SetupAndConfigurationService</w:ResourceURI>\
<a:MessageID>3</a:MessageID>\
<a:ReplyTo><a:Address>http://schemas.xmlsoap.org/ws/2004/08/addressing/role/anonymous</a:Address></a:ReplyTo>\
<w:OperationTimeout>PT60S</w:OperationTimeout>\
</Header>\
<Body>\
<h:CommitChanges_INPUT xmlns:h=\"http://intel.com/wbem/wscim/1/amt-schema/1/AMT_SetupAndConfigurationService\">\
</h:CommitChanges_INPUT>\
</Body>";

/// The rest of the Setup request after the password hash.
pub const SETUP_REQUEST_TAIL: &'static str = "</h:NetworkAdminPassword>\
</h:Setup_INPUT>\
</Body>";

// ---------------------------------------------------------------------------
// Reading a value out of a reply
// ---------------------------------------------------------------------------

/// First position at or after `j` holding `a` or `b` (the end when none does).
pub open spec fn scan_to(x: Seq<u8>, j: int, a: u8, b: u8) -> int
    decreases x.len() - j,
{
    if j < 0 || j >= x.len() || x[j] == a || x[j] == b {
        j
    } else {
        scan_to(x, j + 1, a, b)
    }
}

pub proof fn lemma_scan_to(x: Seq<u8>, j: int, a: u8, b: u8)
    requires
        0 <= j,
    ensures
        j <= scan_to(x, j, a, b),
        j <= x.len() ==> scan_to(x, j, a, b) <= x.len(),
        scan_to(x, j, a, b) < x.len() ==> (x[scan_to(x, j, a, b)] == a || x[scan_to(x, j, a, b)] == b),
    decreases x.len() - j,
{
    if j < x.len() && x[j] != a && x[j] != b {
        lemma_scan_to(x, j + 1, a, b);
    }
}

/// The text of the first element from `i` on whose tag name ends in `suffix`:
/// an opening tag `<` (not `</`) whose name runs to `>` or a space, then what
/// follows the tag's `>` up to the next `<`. The search gives up at a tag left
/// open at the end of the text.
pub open spec fn xml_find(x: Seq<u8>, suffix: Seq<u8>, i: int) -> Option<Seq<u8>>
    decreases x.len() - i,
{
    if i < 0 || i >= x.len() {
        None
    } else if x[i] == 0x3C && i + 1 < x.len() && x[i + 1] != 0x2F {
        let te = scan_to(x, i + 1, 0x3E, 0x20);
        if te >= x.len() {
            None
        } else if te - (i + 1) >= suffix.len() && x.subrange(te - suffix.len(), te) == suffix {
            let te2 = scan_to(x, te, 0x3E, 0x3E);
            if te2 >= x.len() {
                None
            } else {
                Some(x.subrange(te2 + 1, scan_to(x, te2 + 1, 0x3C, 0x3C)))
            }
        } else {
            xml_find(x, suffix, i + 1)
        }
    } else {
        xml_find(x, suffix, i + 1)
    }
}

/// The value `xml_extract` finds in the C string `xml`.
pub open spec fn xml_value(xml: Seq<u8>, suffix: Seq<u8>) -> Option<Seq<u8>> {
    xml_find(c_str(xml), suffix, 0)
}


/// Scanning from `j` stops at the first stop byte, `k`, when none lies before it.
proof fn lemma_scan_to_at(x: Seq<u8>, j: int, k: int, a: u8, b: u8)
    requires
        0 <= j <= k <= x.len(),
        forall|t: int| j <= t < k ==> #[trigger] x[t] != a && x[t] != b,
        k < x.len() ==> (x[k] == a || x[k] == b),
    ensures
        scan_to(x, j, a, b) == k,
    decreases k - j,
{
    if j < k {
        lemma_scan_to_at(x, j + 1, k, a, b);
    }
}

/// The text of an element `<name>value</name>`.
pub open spec fn xml_element(name: Seq<u8>, value: Seq<u8>) -> Seq<u8> {
    seq![0x3Cu8] + name + seq![0x3Eu8] + value + seq![0x3Cu8, 0x2Fu8] + name + seq![0x3Eu8]
}

/// Reading back an element: in `<name>value</name>`, where `name` ends with
/// `suffix`, holds no `>`, space or NUL and does not start with `/`, and
/// `value` holds no `<` or NUL, `xml_extract` finds `value` under `suffix`.
pub proof fn lemma_xml_element_roundtrip(name: Seq<u8>, suffix: Seq<u8>, value: Seq<u8>)
    requires
        name.len() >= 1,
        name[0] != 0x2F,
        forall|i: int| 0 <= i < name.len() ==> #[trigger] name[i] != 0x3E && name[i] != 0x20 && name[i] != 0,
        forall|i: int| 0 <= i < value.len() ==> #[trigger] value[i] != 0x3C && value[i] != 0,
        suffix.len() <= name.len(),
        name.subrange(name.len() - suffix.len(), name.len() as int) == suffix,
    ensures
        xml_value(xml_element(name, value), suffix) == Some(value),
{
    let x = xml_element(name, value);
    let n = name.len() as int;
    let m = value.len() as int;
    assert(x.len() == 2 * n + m + 5);
    assert forall|i: int| 0 <= i < x.len() implies x[i] != 0 by {
        if 1 <= i < 1 + n {
            assert(x[i] == name[i - 1]);
        } else if n + 2 <= i < n + 2 + m {
            assert(x[i] == value[i - n - 2]);
        } else if n + 4 + m <= i < 2 * n + 4 + m {
            assert(x[i] == name[i - n - 4 - m]);
        }
    }
    lemma_c_len_unique(x, x.len() as int);
    assert(c_str(x) =~= x);
    assert(x[1] == name[0]);
    assert forall|t: int| 1 <= t < 1 + n implies #[trigger] x[t] != 0x3E && x[t] != 0x20 by {
        assert(x[t] == name[t - 1]);
    }
    lemma_scan_to_at(x, 1, 1 + n, 0x3E, 0x20);
    assert(x.subrange(1 + n - suffix.len(), 1 + n) =~= name.subrange(n - suffix.len(), n));
    lemma_scan_to_at(x, 1 + n, 1 + n, 0x3E, 0x3E);
    assert forall|t: int| n + 2 <= t < n + 2 + m implies #[trigger] x[t] != 0x3C && x[t] != 0x3C by {
        assert(x[t] == value[t - n - 2]);
    }
    lemma_scan_to_at(x, n + 2, n + 2 + m, 0x3C, 0x3C);
    assert(x.subrange(n + 2, n + 2 + m) =~= value);
}

/// Extracts the value between `<tag>` and the next `<`, where the tag name
/// ends with `suffix`, into `out` (truncated, NUL-terminated). Without one,
/// `out` is emptied and the answer is false.
pub fn xml_extract(xml: &[u8], suffix: &[u8], out: &mut [u8]) -> (found: bool)
    requires
        old(out)@.len() >= 1,
    ensures
        match xml_value(xml@, suffix@) {
            Some(v) => found && final(out)@ == stored_bounded(old(out)@, v),
            None => !found && final(out)@ == old(out)@.update(0, 0u8),
        },
{
    let xml_len = ascii_len(xml);
    let suffix_len = suffix.len();
    let ghost x = c_str(xml@);
    proof {
        lemma_c_len(xml@);
    }
    let mut i: usize = 0;
    while i < xml_len
        invariant
            x == c_str(xml@),
            x == xml@.take(xml_len as int),
            xml_len == x.len(),
            xml_len <= xml@.len(),
            suffix_len == suffix@.len(),
            i <= xml_len,
            xml_find(x, suffix@, 0) == xml_find(x, suffix@, i as int),
            out@ == old(out)@,
            out@.len() >= 1,
        decreases xml_len - i,
    {
        if xml[i] == 0x3C && i + 1 < xml_len && xml[i + 1] != 0x2F {
            let tag_start = i + 1;
            let mut tag_end = tag_start;
            proof {
                lemma_scan_to(x, tag_start as int, 0x3E, 0x20);
            }
            while tag_end < xml_len && xml[tag_end] != 0x3E && xml[tag_end] != 0x20
                invariant
                    tag_start <= tag_end <= xml_len,
                    xml_len <= xml@.len(),
                    x == xml@.take(xml_len as int),
                    scan_to(x, tag_end as int, 0x3E, 0x20) == scan_to(x, tag_start as int, 0x3E, 0x20),
                decreases xml_len - tag_end,
            {
                tag_end += 1;
            }
            assert(scan_to(x, tag_end as int, 0x3E, 0x20) == tag_end);
            if tag_end >= xml_len {
                out[0] = 0;
                return false;
            }
            let tag_len = tag_end - tag_start;
            if tag_len >= suffix_len {
                let tag_suffix_start = tag_end - suffix_len;
                let same = bytes_equal_at(xml, tag_suffix_start, suffix, 0, suffix_len);
                assert(xml@.subrange(tag_suffix_start as int, tag_end as int) =~= x.subrange(
                    tag_suffix_start as int,
                    tag_end as int,
                ));
                assert(suffix@.subrange(0, suffix_len as int) =~= suffix@);
                if same {
                    proof {
                        lemma_scan_to(x, tag_end as int, 0x3E, 0x3E);
                    }
                    while tag_end < xml_len && xml[tag_end] != 0x3E
                        invariant
                            tag_start <= tag_end <= xml_len,
                            xml_len <= xml@.len(),
                            x == xml@.take(xml_len as int),
                            scan_to(x, tag_end as int, 0x3E, 0x3E) == scan_to(
                                x,
                                scan_to(x, tag_start as int, 0x3E, 0x20),
                                0x3E,
                                0x3E,
                            ),
                        decreases xml_len - tag_end,
                    {
                        tag_end += 1;
                    }
                    assert(scan_to(x, tag_end as int, 0x3E, 0x3E) == tag_end);
                    if tag_end >= xml_len {
                        out[0] = 0;
                        return false;
                    }
                    let val_start = tag_end + 1;
                    let mut val_end = val_start;
                    proof {
                        lemma_scan_to(x, val_start as int, 0x3C, 0x3C);
                    }
                    while val_end < xml_len && xml[val_end] != 0x3C
                        invariant
                            val_start <= val_end <= xml_len,
                            xml_len <= xml@.len(),
                            x == xml@.take(xml_len as int),
                            scan_to(x, val_end as int, 0x3C, 0x3C) == scan_to(x, val_start as int, 0x3C, 0x3C),
                        decreases xml_len - val_end,
                    {
                        val_end += 1;
                    }
                    assert(scan_to(x, val_end as int, 0x3C, 0x3C) == val_end);
                    let span = val_end - val_start;
                    let val_len = if span < out.len() - 1 { span } else { out.len() - 1 };
                    let ghost v = x.subrange(val_start as int, val_end as int);
                    assert(xml@.subrange(val_start as int, val_start + val_len) =~= v.take(val_len as int));
                    store_value(out, xml, val_start, val_len);
                    return true;
                }
            }
        }
        i += 1;
    }
    out[0] = 0;
    false
}


// ---------------------------------------------------------------------------
// Requests
// ---------------------------------------------------------------------------

/// The GetGeneralSettings envelope.
pub open spec fn general_settings_text() -> Seq<u8> {
    SOAP_ENV_OPEN.spec_bytes() + GENERAL_SETTINGS_REQUEST.spec_bytes() + SOAP_ENV_CLOSE.spec_bytes()
}

/// The HostBasedSetup envelope carrying the C string `password_hash`.
pub open spec fn setup_ccm_text(password_hash: Seq<u8>) -> Seq<u8> {
    SOAP_ENV_OPEN.spec_bytes() + SETUP_REQUEST_HEAD.spec_bytes() + c_str(password_hash)
        + SETUP_REQUEST_TAIL.spec_bytes() + SOAP_ENV_CLOSE.spec_bytes()
}

/// Writes the GetGeneralSettings envelope into `buf` (truncated,
/// NUL-terminated where room is left); returns its length.
pub fn build_get_general_settings(buf: &mut [u8]) -> (p: usize)
    ensures
        p == fit(old(buf)@.len() as int, 0, general_settings_text().len() as int),
        final(buf)@ == written_text(old(buf)@, general_settings_text()),
{
    let mut t: Vec<u8> = Vec::new();
    push_bytes(&mut t, SOAP_ENV_OPEN.as_bytes());
    push_bytes(&mut t, GENERAL_SETTINGS_REQUEST.as_bytes());
    push_bytes(&mut t, SOAP_ENV_CLOSE.as_bytes());
    let p = append_bytes(buf, 0, t.as_slice());
    if p < buf.len() {
        buf[p] = 0;
    }
    p
}

/// Writes the HostBasedSetup envelope for `password_hash` into `buf`
/// (truncated, NUL-terminated where room is left); returns its length.
pub fn build_setup_ccm(buf: &mut [u8], password_hash: &[u8]) -> (p: usize)
    ensures
        p == fit(old(buf)@.len() as int, 0, setup_ccm_text(password_hash@).len() as int),
        final(buf)@ == written_text(old(buf)@, setup_ccm_text(password_hash@)),
{
    let mut t: Vec<u8> = Vec::new();
    push_bytes(&mut t, SOAP_ENV_OPEN.as_bytes());
    push_bytes(&mut t, SETUP_REQUEST_HEAD.as_bytes());
    push_c_str(&mut t, password_hash);
    push_bytes(&mut t, SETUP_REQUEST_TAIL.as_bytes());
    push_bytes(&mut t, SOAP_ENV_CLOSE.as_bytes());
    let p = append_bytes(buf, 0, t.as_slice());
    if p < buf.len() {
        buf[p] = 0;
    }
    p
}

/// The CommitChanges envelope.
pub open spec fn commit_changes_text() -> Seq<u8> {
    SOAP_ENV_OPEN.spec_bytes() + COMMIT_CHANGES_REQUEST.spec_bytes() + SOAP_ENV_CLOSE.spec_bytes()
}

/// Writes the CommitChanges envelope into `buf` (truncated, NUL-terminated
/// where room is left); returns its length.
pub fn build_commit_changes(buf: &mut [u8]) -> (p: usize)
    ensures
        p == fit(old(buf)@.len() as int, 0, commit_changes_text().len() as int),
        final(buf)@ == written_text(old(buf)@, commit_changes_text()),
{
    let mut t: Vec<u8> = Vec::new();
    push_bytes(&mut t, SOAP_ENV_OPEN.as_bytes());
    push_bytes(&mut t, COMMIT_CHANGES_REQUEST.as_bytes());
    push_bytes(&mut t, SOAP_ENV_CLOSE.as_bytes());
    let p = append_bytes(buf, 0, t.as_slice());
    if p < buf.len() {
        buf[p] = 0;
    }
    p
}

/// Input of the admin password hash: `admin:realm:password`, as much of it
/// as fits in 256 bytes.
pub open spec fn admin_hash_input(digest_realm: Seq<u8>, password: Seq<u8>) -> Seq<u8> {
    let t = "admin:".spec_bytes() + c_str(digest_realm) + seq![0x3Au8] + password;
    if t.len() <= 256 {
        t
    } else {
        t.take(256)
    }
}

/// Hash admin password: MD5("admin:" + digest_realm + ":" + password), in hex.
pub fn hash_admin_password(digest_realm: &[u8], password: &[u8], hex_out: &mut [u8; 33])
    requires
        c_len(digest_realm@) <= 249,
    ensures
        final(hex_out)@ == hex_of(md5(admin_hash_input(digest_realm@, password@))).push(0u8),
{
    let mut t: Vec<u8> = Vec::new();
    push_bytes(&mut t, "admin:".as_bytes());
    push_c_str(&mut t, digest_realm);
    t.push(0x3A);
    push_bytes(&mut t, password);
    t.truncate(256);
    assert(t@ == admin_hash_input(digest_realm@, password@));
    digest_hex(t.as_slice(), hex_out);
}


// ---------------------------------------------------------------------------
// Client Control Mode activation
// ---------------------------------------------------------------------------

/// What a successful activation reports.
pub struct WsmanCcmResult {
    pub setup_return: u32,
    pub digest_realm: [u8; 128],
}

/// The leading decimal digits of the C string `v`, as a number saturated at `u32::MAX`.
pub open spec fn return_value(v: Seq<u8>) -> u32 {
    let n = decimal_run(c_str(v), 0, 0);
    if n < u32::MAX {
        n as u32
    } else {
        u32::MAX
    }
}

/// Reads the leading decimal digits of the C string `v`. A number too large
/// for a `u32` reads as `u32::MAX`.
pub fn parse_return_value(v: &[u8]) -> (r: u32)
    ensures
        r == return_value(v@),
{
    let n = ascii_len(v);
    let ghost x = c_str(v@);
    let mut r: u32 = 0;
    let ghost mut acc: nat = 0;
    let mut i: usize = 0;
    while i < n && v[i] >= 0x30 && v[i] <= 0x39
        invariant
            x == c_str(v@),
            x == v@.take(n as int),
            n <= v@.len(),
            i <= n,
            decimal_run(x, i as int, acc) == decimal_run(x, 0, 0),
            r as int == (if acc < u32::MAX { acc as int } else { u32::MAX as int }),
        decreases n - i,
    {
        let d = (v[i] - 0x30) as u32;
        r = match r.checked_mul(10) {
            Some(t) => match t.checked_add(d) {
                Some(u) => u,
                None => u32::MAX,
            },
            None => u32::MAX,
        };
        proof {
            acc = acc * 10 + d as nat;
        }
        i += 1;
    }
    r
}

/// Which call of the activation is under way.
#[derive(PartialEq, Eq, Structural)]
pub enum CcmStage {
    GeneralSettings,
    Setup,
    Commit,
    Done,
}

/// What the caller does next.
pub enum CcmAction {
    /// Send these request bytes on the APF channel (reopening it first when
    /// it was closed) and hand the parsed reply to `on_response`.
    Post(Vec<u8>),
    /// The activation is over.
    Finished(Result<WsmanCcmResult>),
}

/// CCM activation: GetGeneralSettings, then HostBasedSetup with the admin
/// password hashed against the device's digest realm, then CommitChanges.
/// Each call is posted up to three times: a 401 updates the digest
/// credentials from its challenge.
pub struct CcmActivation {
    pub stage: CcmStage,
    /// Posts made for the current call.
    pub attempt: u32,
    pub auth: DigestAuth,
    pub admin_password: Vec<u8>,
    /// The SOAP envelope of the current call, as the request buffer holds it.
    pub soap: Vec<u8>,
    /// The device's digest realm, once read.
    pub digest_realm: [u8; 128],
}

/// The request bytes for `soap` with credentials `a`: at most 2048 of them.
pub open spec fn request_bytes(soap: Seq<u8>, a: DigestAuthView) -> Seq<u8> {
    let t = post_request_text(soap, a);
    if t.len() <= 2048 {
        t
    } else {
        t.take(2048)
    }
}

/// What the request buffer holds of an envelope.
pub open spec fn soap_bytes(text: Seq<u8>) -> Seq<u8> {
    if text.len() <= 2048 {
        text
    } else {
        text.take(2048)
    }
}

/// Credentials before the first challenge: the LSA user name and password
/// (at most 63 bytes each), everything else empty.
pub open spec fn initial_auth(lsa: LsaCredentials) -> DigestAuthView {
    DigestAuthView {
        username: c_copied(zeros(64), lsa.username@),
        password: c_copied(zeros(64), lsa.password@),
        realm: zeros(128),
        nonce: zeros(128),
        qop: zeros(32),
        opaque: zeros(128),
        nc: 0,
    }
}

/// The reply's body as the parser stored it.
pub open spec fn reply_body(resp: HttpResponse) -> Seq<u8> {
    resp.body@.take(resp.body_len as int)
}

/// The digest realm buffer filled from a GetGeneralSettings reply value.
pub open spec fn realm_buffer(v: Seq<u8>) -> Seq<u8> {
    stored_bounded(zeros(128), v)
}

/// The Setup envelope for realm buffer `realm` and admin password `pw`.
pub open spec fn setup_soap(realm: Seq<u8>, pw: Seq<u8>) -> Seq<u8> {
    soap_bytes(setup_ccm_text(hex_of(md5(admin_hash_input(realm, pw))).push(0u8)))
}

/// The ReturnValue a Setup or CommitChanges reply reports (`u32::MAX` when it has none).
pub open spec fn reply_return(resp: HttpResponse) -> u32 {
    match xml_value(reply_body(resp), "ReturnValue".spec_bytes()) {
        Some(v) => return_value(stored_bounded(zeros(16), v)),
        None => u32::MAX,
    }
}

impl CcmActivation {
    pub open spec fn wf(&self) -> bool {
        &&& 1 <= self.attempt <= 3
        &&& self.stage == CcmStage::GeneralSettings ==> self.auth.nc <= self.attempt
        &&& self.stage == CcmStage::Setup ==> self.auth.nc <= self.attempt + 3
        &&& self.stage == CcmStage::Commit ==> self.auth.nc <= self.attempt + 6
    }

    /// Starts an activation with the LSA credentials and the admin password
    /// to set; returns the machine and the first request to post.
    pub fn start(lsa: &LsaCredentials, admin_password: &[u8]) -> (r: (CcmActivation, Vec<u8>))
        ensures
            r.0.wf(),
            r.0.stage == CcmStage::GeneralSettings,
            r.0.attempt == 1,
            r.0.admin_password@ == admin_password@,
            r.0.soap@ == soap_bytes(general_settings_text()),
            r.0.digest_realm@ == zeros(128),
            r.0.auth@ == initial_auth(*lsa),
            r.1@ == request_bytes(r.0.soap@, initial_auth(*lsa)),
    {
        let mut auth = DigestAuth::new();
        copy_str(&mut auth.username, &lsa.username);
        copy_str(&mut auth.password, &lsa.password);
        assert(auth@ == initial_auth(*lsa));
        let mut pw: Vec<u8> = Vec::new();
        push_bytes(&mut pw, admin_password);
        let mut soap_buf = [0u8; 2048];
        let n = build_get_general_settings(&mut soap_buf);
        let soap_slice = &soap_buf[0..n];
        let mut soap: Vec<u8> = Vec::new();
        push_bytes(&mut soap, soap_slice);
        assert(soap@ =~= soap_bytes(general_settings_text()));
        let req = post_request(soap.as_slice(), &mut auth);
        let digest_realm = [0u8; 128];
        assert(digest_realm@ =~= zeros(128));
        (CcmActivation {
            stage: CcmStage::GeneralSettings,
            attempt: 1,
            auth,
            admin_password: pw,
            soap,
            digest_realm,
        }, req)
    }
}



impl CcmActivation {
    /// Takes the parsed reply to the last request posted and decides what
    /// follows: a 401 is answered with fresh digest credentials (at most three
    /// posts per call, then `AccessDenied`); another status than 200 ends with
    /// `HttpStatus`. After GetGeneralSettings the Setup request follows
    /// (`NotFound` without a DigestRealm); after Setup with ReturnValue 0 the
    /// CommitChanges request follows, and after CommitChanges with ReturnValue
    /// 0 the activation succeeds (any other ReturnValue: `DeviceError`).
    pub fn on_response(&mut self, resp: &HttpResponse) -> (act: CcmAction)
        requires
            old(self).wf(),
            old(self).stage != CcmStage::Done,
            resp.body_len <= 4096,
        ensures
            old(self).admin_password@ == final(self).admin_password@,
            final(self).stage != CcmStage::Done ==> final(self).wf(),
            ({
                let s0 = *old(self);
                let s1 = *final(self);
                let code = resp.status_code;
                let a1 = challenged(s0.auth@, *resp, s0.auth.username@, s0.auth.password@);
                if code == 401 && s0.attempt < 3 {
                    &&& act matches CcmAction::Post(req) && req@ == request_bytes(s0.soap@, a1)
                    &&& s1.auth@ == posted(a1)
                    &&& s1.attempt == s0.attempt + 1
                    &&& s1.stage == s0.stage
                    &&& s1.soap@ == s0.soap@
                    &&& s1.digest_realm@ == s0.digest_realm@
                } else if code == 401 {
                    act == CcmAction::Finished(Err(Error::AccessDenied)) && s1.stage == CcmStage::Done
                } else if code != 200 {
                    act == CcmAction::Finished(Err(Error::HttpStatus(code))) && s1.stage == CcmStage::Done
                } else if s0.stage == CcmStage::GeneralSettings {
                    match xml_value(reply_body(*resp), "DigestRealm".spec_bytes()) {
                        None => act == CcmAction::Finished(Err(Error::NotFound)) && s1.stage == CcmStage::Done,
                        Some(v) => {
                            let realm = realm_buffer(v);
                            &&& s1.digest_realm@ == c_copied(s0.digest_realm@, realm)
                            &&& s1.soap@ == setup_soap(realm, s0.admin_password@)
                            &&& s1.stage == CcmStage::Setup
                            &&& s1.attempt == 1
                            &&& s1.auth@ == posted(s0.auth@)
                            &&& act matches CcmAction::Post(req) && req@ == request_bytes(s1.soap@, s0.auth@)
                        },
                    }
                } else if reply_return(*resp) != 0 {
                    act == CcmAction::Finished(Err(Error::DeviceError)) && s1.stage == CcmStage::Done
                } else if s0.stage == CcmStage::Setup {
                    &&& s1.digest_realm@ == s0.digest_realm@
                    &&& s1.soap@ == soap_bytes(commit_changes_text())
                    &&& s1.stage == CcmStage::Commit
                    &&& s1.attempt == 1
                    &&& s1.auth@ == posted(s0.auth@)
                    &&& act matches CcmAction::Post(req) && req@ == request_bytes(s1.soap@, s0.auth@)
                } else {
                    &&& s1.stage == CcmStage::Done
                    &&& act matches CcmAction::Finished(Ok(r)) && r.setup_return == 0
                        && r.digest_realm@ == s0.digest_realm@
                }
            }),
    {
        if resp.status_code == 401 {
            let mut username = [0u8; 64];
            let mut password = [0u8; 64];
            copy_bytes64(&mut username, &self.auth.username);
            copy_bytes64(&mut password, &self.auth.password);
            digest_from_challenge(&mut self.auth, resp, &username, &password);
            if self.attempt < 3 {
                self.attempt = self.attempt + 1;
                let req = post_request(self.soap.as_slice(), &mut self.auth);
                return CcmAction::Post(req);
            }
            self.stage = CcmStage::Done;
            return CcmAction::Finished(Err(Error::AccessDenied));
        }
        if resp.status_code != 200 {
            self.stage = CcmStage::Done;
            return CcmAction::Finished(Err(Error::HttpStatus(resp.status_code)));
        }
        let body = &resp.body[0..resp.body_len as usize];
        assert(body@ =~= reply_body(*resp));
        if self.stage == CcmStage::GeneralSettings {
            let mut digest_realm = [0u8; 128];
            assert(digest_realm@ =~= zeros(128));
            if !xml_extract(body, "DigestRealm".as_bytes(), &mut digest_realm) {
                self.stage = CcmStage::Done;
                return CcmAction::Finished(Err(Error::NotFound));
            }
            copy_str(&mut self.digest_realm, &digest_realm);
            proof {
                lemma_c_len(digest_realm@);
                lemma_stored_bounded_c_len(zeros(128), xml_value(reply_body(*resp), "DigestRealm".spec_bytes())->0);
            }
            let mut password_hash = [0u8; 33];
            hash_admin_password(&digest_realm, self.admin_password.as_slice(), &mut password_hash);
            let mut soap_buf = [0u8; 2048];
            let n = build_setup_ccm(&mut soap_buf, &password_hash);
            let mut soap: Vec<u8> = Vec::new();
            push_bytes(&mut soap, &soap_buf[0..n]);
            assert(soap@ =~= setup_soap(digest_realm@, self.admin_password@));
            self.soap = soap;
            self.stage = CcmStage::Setup;
            self.attempt = 1;
            let req = post_request(self.soap.as_slice(), &mut self.auth);
            return CcmAction::Post(req);
        }
        let mut ret_val = [0u8; 16];
        let mut return_value: u32 = 0xFFFF_FFFF;
        assert(ret_val@ =~= zeros(16));
        if xml_extract(body, "ReturnValue".as_bytes(), &mut ret_val) {
            return_value = parse_return_value(&ret_val);
        }
        if return_value != 0 {
            self.stage = CcmStage::Done;
            return CcmAction::Finished(Err(Error::DeviceError));
        }
        if self.stage == CcmStage::Setup {
            let mut soap_buf = [0u8; 2048];
            let n = build_commit_changes(&mut soap_buf);
            let mut soap: Vec<u8> = Vec::new();
            push_bytes(&mut soap, &soap_buf[0..n]);
            assert(soap@ =~= soap_bytes(commit_changes_text()));
            self.soap = soap;
            self.stage = CcmStage::Commit;
            self.attempt = 1;
            let req = post_request(self.soap.as_slice(), &mut self.auth);
            return CcmAction::Post(req);
        }
        self.stage = CcmStage::Done;
        CcmAction::Finished(Ok(WsmanCcmResult { setup_return: 0, digest_realm: self.digest_realm }))
    }
}

/// A value found in NUL-free text holds no NUL.
proof fn lemma_xml_find_no_nul(x: Seq<u8>, suffix: Seq<u8>, i: int)
    requires
        0 <= i,
        forall|t: int| 0 <= t < x.len() ==> #[trigger] x[t] != 0,
    ensures
        xml_find(x, suffix, i) matches Some(v) ==> forall|k: int| 0 <= k < v.len() ==> #[trigger] v[k] != 0,
    decreases x.len() - i,
{
    if i < x.len() {
        if x[i] == 0x3C && i + 1 < x.len() && x[i + 1] != 0x2F {
            let te = scan_to(x, i + 1, 0x3E, 0x20);
            lemma_scan_to(x, i + 1, 0x3E, 0x20);
            if te < x.len() {
                if te - (i + 1) >= suffix.len() && x.subrange(te - suffix.len(), te) == suffix {
                    let te2 = scan_to(x, te, 0x3E, 0x3E);
                    lemma_scan_to(x, te, 0x3E, 0x3E);
                    if te2 < x.len() {
                        let e = scan_to(x, te2 + 1, 0x3C, 0x3C);
                        lemma_scan_to(x, te2 + 1, 0x3C, 0x3C);
                        let v = x.subrange(te2 + 1, e);
                        assert forall|k: int| 0 <= k < v.len() implies #[trigger] v[k] != 0 by {
                            assert(v[k] == x[te2 + 1 + k]);
                        }
                    }
                } else {
                    lemma_xml_find_no_nul(x, suffix, i + 1);
                }
            }
        } else {
            lemma_xml_find_no_nul(x, suffix, i + 1);
        }
    }
}

/// The realm a GetGeneralSettings reply names is kept whole: for a
/// DigestRealm value `r` of at most 127 bytes, the realm buffer and the
/// machine's stored copy (`d` being what it held before) read back as `r`,
/// the admin password hash is taken over `admin:` + `r` + `:` + the password
/// (up to 256 bytes of it), and the Setup envelope carries that hash in hex.
pub proof fn lemma_realm_kept(reply: Seq<u8>, pw: Seq<u8>, d: Seq<u8>)
    requires
        d.len() == 128,
    ensures
        match xml_value(reply, "DigestRealm".spec_bytes()) {
            Some(r) => r.len() <= 127 ==> {
                let t = "admin:".spec_bytes() + r + seq![0x3Au8] + pw;
                let input = if t.len() <= 256 { t } else { t.take(256) };
                &&& c_str(realm_buffer(r)) == r
                &&& c_str(c_copied(d, realm_buffer(r))) == r
                &&& admin_hash_input(realm_buffer(r), pw) == input
                &&& setup_soap(realm_buffer(r), pw) == soap_bytes(
                    SOAP_ENV_OPEN.spec_bytes() + SETUP_REQUEST_HEAD.spec_bytes() + hex_of(md5(input))
                        + SETUP_REQUEST_TAIL.spec_bytes() + SOAP_ENV_CLOSE.spec_bytes(),
                )
            },
            None => true,
        },
{
    let x = c_str(reply);
    lemma_c_len(reply);
    assert forall|t: int| 0 <= t < x.len() implies #[trigger] x[t] != 0 by {
        assert(x[t] == reply[t]);
    }
    lemma_xml_find_no_nul(x, "DigestRealm".spec_bytes(), 0);
    if let Some(r) = xml_value(reply, "DigestRealm".spec_bytes()) {
        if r.len() <= 127 {
            let n = r.len() as int;
            let w = realm_buffer(r);
            assert(r.take(n) =~= r);
            assert(w.len() == 128);
            assert forall|k: int| 0 <= k < n implies #[trigger] w[k] == r[k] by {}
            assert(w[n] == 0);
            lemma_c_len_unique(w, n);
            assert(c_str(w) =~= r);
            let w2 = c_copied(d, w);
            assert forall|k: int| 0 <= k < n implies #[trigger] w2[k] == r[k] by {}
            assert(w2[n] == 0);
            lemma_c_len_unique(w2, n);
            assert(c_str(w2) =~= r);
            crate::md5::lemma_hex_c_str(md5(admin_hash_input(w, pw)));
        }
    }
}

/// A copy of a 64-byte buffer.
fn copy_bytes64(dst: &mut [u8; 64], src: &[u8; 64])
    ensures
        final(dst)@ == src@,
{
    let mut i: usize = 0;
    while i < 64
        invariant
            i <= 64,
            forall|t: int| 0 <= t < i ==> dst@[t] == src@[t],
        decreases 64 - i,
    {
        dst[i] = src[i];
        i += 1;
    }
    assert(dst@ =~= src@);
}

/// A value stored in a buffer with room for its NUL is a C string no longer
/// than the buffer less one.
proof fn lemma_stored_bounded_c_len(out: Seq<u8>, v: Seq<u8>)
    requires
        out.len() >= 1,
    ensures
        c_len(stored_bounded(out, v)) < out.len(),
{
    let n = if v.len() < out.len() - 1 { v.len() as int } else { out.len() - 1 };
    let w = stored_bounded(out, v);
    assert(w[n] == 0);
    crate::str_util::lemma_c_len(w);
    if c_len(w) > n {
        assert(w[n] != 0);
    }
}

} // verus!
