//! HTTP over the APF channel: response parsing (status line, headers, plain
//! and chunked bodies, digest challenges) and RFC 2617 digest authentication.

use vstd::prelude::*;
use vstd::string::StringSliceAdditionalSpecFns;
use crate::error::{Error, Result};
use crate::md5::{hex_of, lemma_hex_c_str, md5, md5_hash, md5_hex};
use crate::str_util::{
    append_bytes, append_hex32, ascii_find, ascii_len, c_len, c_str, decimal, digits_of, extract_field,
    field_value, find_spec, fit, hex32, hex_char, lemma_c_len, lemma_find_spec_bound, lemma_text, pow16,
    push_bytes, push_c_str, push_u32, splice, store_value, stored_bounded, stored_c_string, written_text,
};

verus! {

broadcast use vstd::string::is_ascii_spec_bytes;

pub const HTTP_MAX_BODY: usize = 4096;

pub struct HttpResponse {
    pub status_code: u32,
    pub body: [u8; 4096],
    pub body_len: u32,
    pub auth_realm: [u8; 128],
    pub auth_nonce: [u8; 128],
    pub auth_qop: [u8; 32],
    pub auth_opaque: [u8; 128],
}

pub struct DigestAuth {
    pub username: [u8; 64],
    pub password: [u8; 64],
    pub realm: [u8; 128],
    pub nonce: [u8; 128],
    pub qop: [u8; 32],
    pub opaque: [u8; 128],
    pub nc: u32,
}

/// The credentials as the contracts see them.
pub struct DigestAuthView {
    pub username: Seq<u8>,
    pub password: Seq<u8>,
    pub realm: Seq<u8>,
    pub nonce: Seq<u8>,
    pub qop: Seq<u8>,
    pub opaque: Seq<u8>,
    pub nc: u32,
}

impl View for DigestAuth {
    type V = DigestAuthView;

    open spec fn view(&self) -> DigestAuthView {
        DigestAuthView {
            username: self.username@,
            password: self.password@,
            realm: self.realm@,
            nonce: self.nonce@,
            qop: self.qop@,
            opaque: self.opaque@,
            nc: self.nc,
        }
    }
}

pub open spec fn zeros(n: nat) -> Seq<u8> {
    Seq::new(n, |i: int| 0u8)
}

impl HttpResponse {
    /// An empty response: every field zero.
    pub fn new() -> (r: Self)
        ensures
            r.status_code == 0,
            r.body_len == 0,
            r.body@ == zeros(4096),
            r.auth_realm@ == zeros(128),
            r.auth_nonce@ == zeros(128),
            r.auth_qop@ == zeros(32),
            r.auth_opaque@ == zeros(128),
    {
        let r = HttpResponse {
            status_code: 0,
            body: [0; 4096],
            body_len: 0,
            auth_realm: [0; 128],
            auth_nonce: [0; 128],
            auth_qop: [0; 32],
            auth_opaque: [0; 128],
        };
        assert(r.body@ =~= zeros(4096));
        assert(r.auth_realm@ =~= zeros(128));
        assert(r.auth_nonce@ =~= zeros(128));
        assert(r.auth_qop@ =~= zeros(32));
        assert(r.auth_opaque@ =~= zeros(128));
        r
    }
}

impl DigestAuth {
    /// Credentials not yet configured: every field zero.
    pub fn new() -> (r: Self)
        ensures
            r.username@ == zeros(64),
            r.password@ == zeros(64),
            r.realm@ == zeros(128),
            r.nonce@ == zeros(128),
            r.qop@ == zeros(32),
            r.opaque@ == zeros(128),
            r.nc == 0,
    {
        let r = DigestAuth {
            username: [0; 64],
            password: [0; 64],
            realm: [0; 128],
            nonce: [0; 128],
            qop: [0; 32],
            opaque: [0; 128],
            nc: 0,
        };
        assert(r.username@ =~= zeros(64));
        assert(r.password@ =~= zeros(64));
        assert(r.realm@ =~= zeros(128));
        assert(r.nonce@ =~= zeros(128));
        assert(r.qop@ =~= zeros(32));
        assert(r.opaque@ =~= zeros(128));
        r
    }
}

/// `dst` after receiving the C string of `src`, cut to leave room for its
/// terminating NUL.
pub open spec fn c_copied(dst: Seq<u8>, src: Seq<u8>) -> Seq<u8> {
    stored_bounded(dst, c_str(src))
}

/// Copies the C string `src` into `dst`, truncated, always NUL-terminated.
pub fn copy_str(dst: &mut [u8], src: &[u8])
    requires
        old(dst)@.len() >= 1,
    ensures
        final(dst)@ == c_copied(old(dst)@, src@),
{
    let n = ascii_len(src);
    let len = if n < dst.len() - 1 { n } else { dst.len() - 1 };
    proof {
        lemma_c_len(src@);
    }
    assert(src@.subrange(0, len as int) =~= c_str(src@).take(len as int));
    store_value(dst, src, 0, len);
}

/// The credentials after a 401 challenge: user name and password as given,
/// realm, nonce, qop and opaque from the challenge, nonce count zero.
pub open spec fn challenged(
    a: DigestAuthView,
    challenge: HttpResponse,
    username: Seq<u8>,
    password: Seq<u8>,
) -> DigestAuthView {
    DigestAuthView {
        username: c_copied(a.username, username),
        password: c_copied(a.password, password),
        realm: c_copied(a.realm, challenge.auth_realm@),
        nonce: c_copied(a.nonce, challenge.auth_nonce@),
        qop: c_copied(a.qop, challenge.auth_qop@),
        opaque: c_copied(a.opaque, challenge.auth_opaque@),
        nc: 0,
    }
}

/// Configures digest credentials from a 401 challenge: user name and password
/// as given, realm, nonce, qop and opaque from the challenge; the nonce count
/// starts again at zero.
pub fn digest_from_challenge(
    auth: &mut DigestAuth,
    challenge: &HttpResponse,
    username: &[u8],
    password: &[u8],
)
    ensures
        final(auth)@ == challenged(old(auth)@, *challenge, username@, password@),
{
    copy_str(&mut auth.username, username);
    copy_str(&mut auth.password, password);
    copy_str(&mut auth.realm, &challenge.auth_realm);
    copy_str(&mut auth.nonce, &challenge.auth_nonce);
    copy_str(&mut auth.qop, &challenge.auth_qop);
    copy_str(&mut auth.opaque, &challenge.auth_opaque);
    auth.nc = 0;
}


// ---------------------------------------------------------------------------
// What a response is read as
// ---------------------------------------------------------------------------

pub open spec fn is_digit(c: u8) -> bool {
    0x30 <= c <= 0x39
}

/// The first place where C string `a` occurs in `raw`, or else where `b` does.
pub open spec fn first_of(raw: Seq<u8>, a: Seq<u8>, b: Seq<u8>) -> Option<int> {
    match find_spec(raw, a) {
        Some(p) => Some(p),
        None => find_spec(raw, b),
    }
}

/// Position just after the status-line prefix `HTTP/1.1 ` (or `HTTP/1.0 `).
pub open spec fn status_start(raw: Seq<u8>) -> Option<int> {
    match first_of(raw, "HTTP/1.1 ".spec_bytes(), "HTTP/1.0 ".spec_bytes()) {
        Some(p) => Some(p + 9),
        None => None,
    }
}

/// The status code read from the first `k` of the three bytes at `sp`; bytes
/// that are not digits (or lie past the end) are skipped.
pub open spec fn status_digits(raw: Seq<u8>, sp: int, k: nat) -> nat
    decreases k,
{
    if k == 0 {
        0
    } else {
        let prev = status_digits(raw, sp, (k - 1) as nat);
        let q = sp + k - 1;
        if 0 <= q < raw.len() && is_digit(raw[q]) {
            prev * 10 + (raw[q] - 0x30) as nat
        } else {
            prev
        }
    }
}

/// Start of the body: after the first blank line, or the end of the data.
pub open spec fn header_end(raw: Seq<u8>) -> int {
    match find_spec(raw, "\r\n\r\n".spec_bytes()) {
        Some(p) => p + 4,
        None => raw.len() as int,
    }
}

pub open spec fn skip_spaces(raw: Seq<u8>, p: int) -> int
    decreases raw.len() - p,
{
    if 0 <= p < raw.len() && raw[p] == 0x20 {
        skip_spaces(raw, p + 1)
    } else {
        p
    }
}

/// `acc` extended by the run of decimal digits at `p`.
pub open spec fn decimal_run(raw: Seq<u8>, p: int, acc: nat) -> nat
    decreases raw.len() - p,
{
    if 0 <= p < raw.len() && is_digit(raw[p]) {
        decimal_run(raw, p + 1, acc * 10 + (raw[p] - 0x30) as nat)
    } else {
        acc
    }
}


/// Every byte of a decimal rendering is a digit.
proof fn lemma_digits_are_digits(v: nat)
    ensures
        forall|i: int| 0 <= i < digits_of(v).len() ==> is_digit(#[trigger] digits_of(v)[i]),
    decreases v,
{
    if v > 0 {
        lemma_digits_are_digits(v / 10);
        let d = digits_of(v / 10);
        assert(digits_of(v) == d.push((0x30 + v % 10) as u8));
        assert forall|i: int| 0 <= i < digits_of(v).len() implies is_digit(#[trigger] digits_of(v)[i]) by {
            if i < d.len() {
                assert(digits_of(v)[i] == d[i]);
            }
        }
    }
}

/// One more digit after a run of digits multiplies the run's value by ten
/// and adds the digit.
proof fn lemma_run_push(s: Seq<u8>, c: u8, p: int, acc: nat)
    requires
        0 <= p <= s.len(),
        forall|i: int| 0 <= i < s.len() ==> is_digit(#[trigger] s[i]),
        is_digit(c),
    ensures
        decimal_run(s.push(c), p, acc) == decimal_run(s, p, acc) * 10 + (c - 0x30),
    decreases s.len() - p,
{
    if p < s.len() {
        assert(s.push(c)[p] == s[p]);
        lemma_run_push(s, c, p + 1, acc * 10 + (s[p] - 0x30) as nat);
    } else {
        assert(s.push(c)[p] == c);
        assert(decimal_run(s.push(c), p + 1, acc * 10 + (c - 0x30) as nat) == acc * 10 + (c - 0x30));
    }
}

/// Reading back the decimal text that the writers produce gives the number
/// written: what `append_u32` and `push_u32` write, `decimal_run` (the
/// Content-Length reader) and `return_value` read back.
pub proof fn lemma_decimal_roundtrip(v: nat)
    ensures
        decimal_run(decimal(v), 0, 0) == v,
        forall|i: int| 0 <= i < decimal(v).len() ==> is_digit(#[trigger] decimal(v)[i]),
    decreases v,
{
    lemma_digits_are_digits(v);
    if v == 0 {
        assert(decimal_run(decimal(v), 1, 0) == 0);
    } else if v < 10 {
        reveal_with_fuel(digits_of, 2);
        assert(digits_of(v) =~= Seq::<u8>::empty().push((0x30 + v % 10) as u8));
        lemma_run_push(Seq::<u8>::empty(), (0x30 + v % 10) as u8, 0, 0);
    } else {
        lemma_decimal_roundtrip(v / 10);
        lemma_digits_are_digits(v / 10);
        lemma_run_push(digits_of(v / 10), (0x30 + v % 10) as u8, 0, 0);
    }
}

/// The Content-Length header's value (0 when absent), as the number its digits denote.
pub open spec fn content_length(raw: Seq<u8>) -> nat {
    match first_of(raw, "Content-Length:".spec_bytes(), "content-length:".spec_bytes()) {
        Some(p) => decimal_run(raw, skip_spaces(raw, p + 15), 0),
        None => 0,
    }
}

pub open spec fn hex_digit(c: u8) -> Option<nat> {
    if 0x30 <= c <= 0x39 {
        Some((c - 0x30) as nat)
    } else if 0x61 <= c <= 0x66 {
        Some((c - 0x61 + 10) as nat)
    } else if 0x41 <= c <= 0x46 {
        Some((c - 0x41 + 10) as nat)
    } else {
        None
    }
}

/// End of the run of hexadecimal digits at `p`.
pub open spec fn hex_end(raw: Seq<u8>, p: int) -> int
    decreases raw.len() - p,
{
    if 0 <= p < raw.len() && hex_digit(raw[p]) is Some {
        hex_end(raw, p + 1)
    } else {
        p
    }
}

/// `acc` extended by the run of hexadecimal digits at `p`.
pub open spec fn hex_run(raw: Seq<u8>, p: int, acc: nat) -> nat
    decreases raw.len() - p,
{
    if 0 <= p < raw.len() && hex_digit(raw[p]) is Some {
        hex_run(raw, p + 1, acc * 16 + hex_digit(raw[p])->0)
    } else {
        acc
    }
}

/// Position after a CR LF at `p`, if there is one.
pub open spec fn after_crlf(raw: Seq<u8>, p: int) -> int {
    if 0 <= p && p + 1 < raw.len() && raw[p] == 0x0D && raw[p + 1] == 0x0A {
        p + 2
    } else {
        p
    }
}

pub open spec fn min3(a: int, b: int, c: int) -> int {
    if a <= b && a <= c {
        a
    } else if b <= c {
        b
    } else {
        c
    }
}

pub proof fn lemma_hex_end(raw: Seq<u8>, p: int)
    requires
        0 <= p,
    ensures
        p <= hex_end(raw, p),
        p <= raw.len() ==> hex_end(raw, p) <= raw.len(),
        forall|t: int| p <= t < hex_end(raw, p) ==> hex_digit(#[trigger] raw[t]) is Some,
        hex_end(raw, p) < raw.len() ==> hex_digit(raw[hex_end(raw, p)]) is None,
    decreases raw.len() - p,
{
    if p < raw.len() && hex_digit(raw[p]) is Some {
        lemma_hex_end(raw, p + 1);
    }
}

/// The body of a chunked transfer decoded from `src` on, appended to `out`:
/// each chunk is a hexadecimal size, CR LF, the data and CR LF; a zero or
/// missing size ends it, and the body holds at most 4095 bytes.
pub open spec fn dechunk(raw: Seq<u8>, src: int, out: Seq<u8>) -> Seq<u8>
    decreases raw.len() - src,
{
    if !(0 <= src < raw.len() && out.len() < 4095) {
        out
    } else {
        let e = hex_end(raw, src);
        let size = hex_run(raw, src, 0);
        if e == src || size == 0 {
            out
        } else {
            proof {
                lemma_hex_end(raw, src);
            }
            let s1 = after_crlf(raw, e);
            let copy = min3(size as int, raw.len() - s1, 4095 - out.len());
            let out2 = out + raw.subrange(s1, s1 + copy);
            let s3 = after_crlf(raw, s1 + size);
            if s3 >= raw.len() {
                out2
            } else {
                dechunk(raw, s3, out2)
            }
        }
    }
}


/// A hex digit as rendered reads back as its value.
proof fn lemma_hex_char_digit(d: int)
    requires
        0 <= d < 16,
    ensures
        hex_digit(hex_char(d)) == Some(d as nat),
{
}

/// One more hex digit of `x` (counted from the top, with place value `m`).
proof fn lemma_hex_place(x: int, m: int)
    requires
        0 <= x,
        0 < m,
    ensures
        (x / (m * 16)) * 16 + (x / m) % 16 == x / m,
{
    vstd::arithmetic::div_mod::lemma_div_denominator(x, m, 16);
    vstd::arithmetic::div_mod::lemma_fundamental_div_mod(x / m, 16);
}

/// Reading the eight hex digits of `v` from digit `k` on, after `v`'s
/// higher digits were read into `acc`, gives `v`.
proof fn lemma_hex_run_hex32(raw: Seq<u8>, v: u32, k: int)
    requires
        0 <= k <= 8,
        raw.len() >= 9,
        raw.subrange(0, 8) == hex32(v),
        hex_digit(raw[8]) is None,
    ensures
        hex_run(raw, k, ((v as int) / pow16(8 - k)) as nat) == v,
        hex_end(raw, k) == 8,
    decreases 8 - k,
{
    reveal_with_fuel(pow16, 9);
    assert(pow16(8) == 0x1_0000_0000);
    if k < 8 {
        let m = pow16(7 - k);
        assert(m > 0);
        assert(pow16(8 - k) == m * 16);
        let d = ((v as int) / m) % 16;
        assert(raw[k] == hex32(v)[k]);
        lemma_hex_char_digit(d);
        lemma_hex_place(v as int, m);
        lemma_hex_run_hex32(raw, v, k + 1);
    } else {
        assert((v as int) / pow16(0) == v);
    }
}

/// Reading back a chunked body: one chunk whose size is written as eight
/// hex digits, its data, then the final zero-size chunk, decodes to the data.
pub proof fn lemma_single_chunk(data: Seq<u8>)
    requires
        0 < data.len() <= 4095,
    ensures
        ({
            let crlf = seq![0x0Du8, 0x0Au8];
            dechunk(hex32(data.len() as u32) + crlf + data + crlf + seq![0x30u8] + crlf, 0, Seq::empty())
                == data
        }),
{
    let crlf = seq![0x0Du8, 0x0Au8];
    let n = data.len() as int;
    let v = data.len() as u32;
    let s = hex32(v) + crlf + data + crlf + seq![0x30u8] + crlf;
    assert(s.len() == n + 15);
    assert(s.subrange(0, 8) =~= hex32(v));
    assert(s[8] == 0x0D);
    reveal_with_fuel(pow16, 9);
    assert(pow16(8) == 0x1_0000_0000);
    assert((v as int) / pow16(8) == 0);
    lemma_hex_run_hex32(s, v, 0);
    assert(hex_run(s, 0, 0) == n);
    assert(after_crlf(s, 8) == 10);
    assert(s.subrange(10, 10 + n) =~= data);
    assert(s[10 + n] == 0x0D && s[11 + n] == 0x0A);
    assert(after_crlf(s, 10 + n) == 12 + n);
    assert(s[12 + n] == 0x30);
    assert(s[13 + n] == 0x0D);
    assert(hex_digit(s[13 + n]) is None);
    assert(hex_end(s, 13 + n) == 13 + n);
    assert(hex_end(s, 12 + n) == 13 + n);
    assert(hex_run(s, 13 + n, 0) == 0);
    assert(hex_run(s, 12 + n, 0) == 0);
    assert(dechunk(s, 12 + n, data) == data);
}

/// The response announces a chunked transfer in its header.
pub open spec fn is_chunked(raw: Seq<u8>) -> bool {
    let head = raw.take(header_end(raw));
    ||| find_spec(head, "Transfer-Encoding: chunked".spec_bytes()) is Some
    ||| find_spec(head, "transfer-encoding: chunked".spec_bytes()) is Some
    ||| find_spec(head, "Transfer-Encoding:chunked".spec_bytes()) is Some
}

/// A plain body: what follows the header, cut to Content-Length when that is
/// smaller, and to 4095 bytes.
pub open spec fn plain_body(raw: Seq<u8>) -> Seq<u8> {
    let bs = header_end(raw);
    let avail = raw.len() - bs;
    let cl = content_length(raw);
    let n1 = if cl > 0 && cl < avail { cl as int } else { avail };
    let n = if n1 > 4095 { 4095 } else { n1 };
    raw.subrange(bs, bs + n)
}

pub open spec fn response_body(raw: Seq<u8>) -> Seq<u8> {
    if is_chunked(raw) {
        dechunk(raw, header_end(raw), Seq::empty())
    } else {
        plain_body(raw)
    }
}

/// The WWW-Authenticate header line and everything after it.
pub open spec fn auth_line(raw: Seq<u8>) -> Option<Seq<u8>> {
    match first_of(raw, "WWW-Authenticate:".spec_bytes(), "www-authenticate:".spec_bytes()) {
        Some(p) => Some(raw.subrange(p, raw.len() as int)),
        None => None,
    }
}

/// A challenge field after parsing: cleared, then on a 401 filled with the
/// value of parameter `key` of the WWW-Authenticate header, where present.
pub open spec fn challenge_param(field: Seq<u8>, raw: Seq<u8>, status: nat, key: Seq<u8>) -> Seq<u8> {
    let cleared = field.update(0, 0u8);
    if status != 401 {
        cleared
    } else {
        match auth_line(raw) {
            Some(line) => match field_value(line, key) {
                Some(v) => stored_c_string(cleared, v),
                None => cleared,
            },
            None => cleared,
        }
    }
}

/// What `parse_response` leaves in `new` when it reads `raw` into `old`.
pub open spec fn parsed_into(old: HttpResponse, new: HttpResponse, raw: Seq<u8>, sp: int) -> bool {
    let code = status_digits(raw, sp, 3);
    let b = response_body(raw);
    &&& new.status_code == code
    &&& new.body_len == b.len()
    &&& new.body@ == stored_c_string(old.body@.update(0, 0u8), b)
    &&& new.auth_realm@ == challenge_param(old.auth_realm@, raw, code, "realm".spec_bytes())
    &&& new.auth_nonce@ == challenge_param(old.auth_nonce@, raw, code, "nonce".spec_bytes())
    &&& new.auth_qop@ == challenge_param(old.auth_qop@, raw, code, "qop".spec_bytes())
    &&& new.auth_opaque@ == challenge_param(old.auth_opaque@, raw, code, "opaque".spec_bytes())
}

/// What `parse_response` leaves when it finds no status line.
pub open spec fn cleared_response(old: HttpResponse, new: HttpResponse) -> bool {
    &&& new.status_code == 0
    &&& new.body_len == 0
    &&& new.body@ == old.body@.update(0, 0u8)
    &&& new.auth_realm@ == old.auth_realm@.update(0, 0u8)
    &&& new.auth_nonce@ == old.auth_nonce@.update(0, 0u8)
    &&& new.auth_qop@ == old.auth_qop@.update(0, 0u8)
    &&& new.auth_opaque@ == old.auth_opaque@.update(0, 0u8)
}


// ---------------------------------------------------------------------------
// Reading a response
// ---------------------------------------------------------------------------

/// `ascii_find` of `a`, or else of `b`.
fn find_first_of(raw: &[u8], a: &[u8], b: &[u8]) -> (r: Option<usize>)
    ensures
        r matches Some(p) ==> first_of(raw@, a@, b@) == Some(p as int),
        r is None ==> first_of(raw@, a@, b@) is None,
{
    match ascii_find(raw, a) {
        Some(p) => Some(p),
        None => ascii_find(raw, b),
    }
}

proof fn lemma_first_of_bound(raw: Seq<u8>, a: Seq<u8>, b: Seq<u8>, n: int)
    requires
        c_len(a) == n,
        c_len(b) == n,
    ensures
        first_of(raw, a, b) matches Some(p) ==> 0 <= p && p + n <= raw.len(),
{
    lemma_find_spec_bound(raw, a);
    lemma_find_spec_bound(raw, b);
}

/// The status code from the three bytes at `sp`.
fn status_code_at(raw: &[u8], sp: usize) -> (code: u32)
    requires
        sp <= raw@.len(),
    ensures
        code == status_digits(raw@, sp as int, 3),
{
    let mut code: u32 = 0;
    let mut i: usize = 0;
    while i < 3
        invariant
            i <= 3,
            sp <= raw@.len(),
            code == status_digits(raw@, sp as int, i as nat),
            code < (if i == 0 { 1int } else if i == 1 { 10 } else if i == 2 { 100 } else { 1000 }),
        decreases 3 - i,
    {
        if i < raw.len() - sp && raw[sp + i] >= 0x30 && raw[sp + i] <= 0x39 {
            code = code * 10 + (raw[sp + i] - 0x30) as u32;
        }
        i += 1;
    }
    code
}

/// The decimal number after the spaces at `start`, saturated at `u64::MAX`.
fn decimal_at(raw: &[u8], start: usize) -> (v: u64)
    requires
        start <= raw@.len(),
    ensures
        v as int == (if decimal_run(raw@, skip_spaces(raw@, start as int), 0) < u64::MAX {
            decimal_run(raw@, skip_spaces(raw@, start as int), 0) as int
        } else {
            u64::MAX as int
        }),
{
    let mut p = start;
    while p < raw.len() && raw[p] == 0x20
        invariant
            start <= p <= raw@.len(),
            skip_spaces(raw@, p as int) == skip_spaces(raw@, start as int),
        decreases raw@.len() - p,
    {
        p += 1;
    }
    let ghost first = p as int;
    let mut v: u64 = 0;
    let ghost mut acc: nat = 0;
    while p < raw.len() && raw[p] >= 0x30 && raw[p] <= 0x39
        invariant
            first <= p <= raw@.len(),
            first == skip_spaces(raw@, start as int),
            decimal_run(raw@, p as int, acc) == decimal_run(raw@, first, 0),
            v as int == (if acc < u64::MAX { acc as int } else { u64::MAX as int }),
        decreases raw@.len() - p,
    {
        let d = (raw[p] - 0x30) as u64;
        v = match v.checked_mul(10) {
            Some(t) => match t.checked_add(d) {
                Some(u) => u,
                None => u64::MAX,
            },
            None => u64::MAX,
        };
        proof {
            acc = acc * 10 + d as nat;
        }
        p += 1;
    }
    v
}

fn hex_value(c: u8) -> (r: Option<usize>)
    ensures
        r matches Some(d) ==> hex_digit(c) == Some(d as nat),
        r is None ==> hex_digit(c) is None,
{
    if c >= 0x30 && c <= 0x39 {
        Some((c - 0x30) as usize)
    } else if c >= 0x61 && c <= 0x66 {
        Some((c - 0x61 + 10) as usize)
    } else if c >= 0x41 && c <= 0x46 {
        Some((c - 0x41 + 10) as usize)
    } else {
        None
    }
}

fn skip_crlf(raw: &[u8], p: usize) -> (r: usize)
    ensures
        r == after_crlf(raw@, p as int),
{
    if raw.len() >= 2 && p < raw.len() - 1 && raw[p] == 0x0D && raw[p + 1] == 0x0A {
        p + 2
    } else {
        p
    }
}

/// Writes `src[from..from+n]` at `dst[at..]`.
fn copy_to(dst: &mut [u8], at: usize, src: &[u8], from: usize, n: usize)
    requires
        at + n <= old(dst).len(),
        from + n <= src.len(),
    ensures
        final(dst)@ == splice(old(dst)@, at as int, src@.subrange(from as int, from + n)),
{
    let mut j: usize = 0;
    while j < n
        invariant
            j <= n,
            at + n <= dst.len(),
            from + n <= src.len(),
            dst@.len() == old(dst)@.len(),
            dst@ == splice(old(dst)@, at as int, src@.subrange(from as int, from + j)),
        decreases n - j,
    {
        dst[at + j] = src[from + j];
        j += 1;
        assert(dst@ =~= splice(old(dst)@, at as int, src@.subrange(from as int, from + j)));
    }
}


proof fn lemma_dechunk_len(raw: Seq<u8>, src: int, out: Seq<u8>)
    requires
        out.len() <= 4095,
    ensures
        out.len() <= dechunk(raw, src, out).len() <= 4095,
    decreases raw.len() - src,
{
    if 0 <= src < raw.len() && out.len() < 4095 {
        let e = hex_end(raw, src);
        let size = hex_run(raw, src, 0);
        if e != src && size != 0 {
            lemma_hex_end(raw, src);
            let s1 = after_crlf(raw, e);
            let copy = min3(size as int, raw.len() - s1, 4095 - out.len());
            let out2 = out + raw.subrange(s1, s1 + copy);
            let s3 = after_crlf(raw, s1 + size);
            if s3 < raw.len() {
                lemma_dechunk_len(raw, s3, out2);
            }
        }
    }
}

/// Decodes the chunked body that starts at `bs` into `body`, NUL-terminated,
/// and returns its length. Chunk sizes are read as the numbers their digits
/// denote: one that does not fit in memory runs past the end of the data.
fn decode_chunked(raw: &[u8], bs: usize, body: &mut [u8; 4096]) -> (n: usize)
    requires
        bs <= raw@.len(),
    ensures
        n == dechunk(raw@, bs as int, Seq::empty()).len(),
        final(body)@ == stored_c_string(old(body)@, dechunk(raw@, bs as int, Seq::empty())),
{
    let ghost full = dechunk(raw@, bs as int, Seq::empty());
    let ghost mut out: Seq<u8> = Seq::empty();
    let mut src = bs;
    let mut dst: usize = 0;
    assert(splice(old(body)@, 0, out) =~= old(body)@);
    while src < raw.len() && dst < 4095
        invariant_except_break
            dechunk(raw@, src as int, out) == full,
        invariant
            dst == out.len(),
            dst <= 4095,
            body@.len() == 4096,
            body@ == splice(old(body)@, 0, out),
            full == dechunk(raw@, bs as int, Seq::empty()),
        ensures
            full == out,
        decreases (if src <= raw@.len() { raw@.len() - src } else { 0 }),
    {
        let start = src;
        let mut size: usize = 0;
        let ghost mut acc: nat = 0;
        proof {
            lemma_hex_end(raw@, start as int);
        }
        while src < raw.len() && hex_value(raw[src]).is_some()
            invariant
                start <= src <= raw@.len(),
                start < raw@.len(),
                hex_end(raw@, src as int) == hex_end(raw@, start as int),
                hex_run(raw@, src as int, acc) == hex_run(raw@, start as int, 0),
                size as int == (if acc < usize::MAX { acc as int } else { usize::MAX as int }),
            decreases raw@.len() - src,
        {
            let d = match hex_value(raw[src]) {
                Some(d) => d,
                None => 0,
            };
            size = match size.checked_mul(16) {
                Some(t) => match t.checked_add(d) {
                    Some(u) => u,
                    None => usize::MAX,
                },
                None => usize::MAX,
            };
            proof {
                acc = acc * 16 + d as nat;
            }
            src += 1;
        }
        assert(hex_end(raw@, start as int) == src);
        assert(hex_run(raw@, start as int, 0) == acc);
        if src == start || size == 0 {
            assert(dechunk(raw@, start as int, out) == out);
            break;
        }
        let ghost e = src as int;
        src = skip_crlf(raw, src);
        let ghost s1 = src as int;
        let avail = raw.len() - src;
        let room = 4095 - dst;
        let copy_len = if size <= avail && size <= room {
            size
        } else if avail <= room {
            avail
        } else {
            room
        };
        assert(copy_len == min3(acc as int, raw@.len() - s1, 4095 - out.len()));
        copy_to(body, dst, raw, src, copy_len);
        let ghost out2 = out + raw@.subrange(s1, s1 + copy_len);
        assert(body@ =~= splice(old(body)@, 0, out2));
        dst += copy_len;
        src = if size <= usize::MAX - src { src + size } else { usize::MAX };
        src = skip_crlf(raw, src);
        proof {
            let s3 = after_crlf(raw@, s1 + acc);
            if s3 < raw@.len() {
                assert(src == s3);
            } else {
                assert(dechunk(raw@, src as int, out2) == out2);
            }
            out = out2;
        }
    }
    body[dst] = 0;
    assert(body@ =~= stored_c_string(old(body)@, full));
    dst
}


/// Parses an HTTP response held in `data[..len]` into `resp`: status code,
/// body (plain, cut to Content-Length, or chunked), and on a 401 the digest
/// challenge. Without a status line it fails with `ProtocolError`.
/// Content-Length and chunk sizes are read as the numbers their digits
/// denote, however large.
pub fn parse_response(data: &[u8], len: u32, resp: &mut HttpResponse) -> (r: Result<()>)
    requires
        len <= data@.len(),
    ensures
        ({
            let raw = data@.take(len as int);
            match status_start(raw) {
                None => r == Err::<(), Error>(Error::ProtocolError) && cleared_response(*old(resp), *final(resp)),
                Some(sp) => r is Ok && parsed_into(*old(resp), *final(resp), raw, sp),
            }
        }),
{
    resp.status_code = 0;
    resp.body_len = 0;
    resp.body[0] = 0;
    resp.auth_realm[0] = 0;
    resp.auth_nonce[0] = 0;
    resp.auth_qop[0] = 0;
    resp.auth_opaque[0] = 0;
    let raw = &data[0..len as usize];
    assert(raw@ =~= data@.take(len as int));
    proof {
        reveal_strlit("HTTP/1.1 ");
        reveal_strlit("HTTP/1.0 ");
        reveal_strlit("\r\n\r\n");
        reveal_strlit("Content-Length:");
        reveal_strlit("content-length:");
        lemma_text("HTTP/1.1 ");
        lemma_text("HTTP/1.0 ");
        lemma_text("\r\n\r\n");
        lemma_text("Content-Length:");
        lemma_text("content-length:");
        lemma_first_of_bound(raw@, "HTTP/1.1 ".spec_bytes(), "HTTP/1.0 ".spec_bytes(), 9);
        lemma_first_of_bound(raw@, "Content-Length:".spec_bytes(), "content-length:".spec_bytes(), 15);
        lemma_find_spec_bound(raw@, "\r\n\r\n".spec_bytes());
    }
    let sp = match find_first_of(raw, "HTTP/1.1 ".as_bytes(), "HTTP/1.0 ".as_bytes()) {
        Some(pos) => pos + 9,
        None => return Err(Error::ProtocolError),
    };
    let code = status_code_at(raw, sp);
    resp.status_code = code;

    let body_start = match ascii_find(raw, "\r\n\r\n".as_bytes()) {
        Some(pos) => pos + 4,
        None => raw.len(),
    };
    assert(body_start == header_end(raw@));

    let content_length: u64 = match find_first_of(
        raw,
        "Content-Length:".as_bytes(),
        "content-length:".as_bytes(),
    ) {
        Some(pos) => decimal_at(raw, pos + 15),
        None => 0,
    };

    if code == 401 {
        let at = find_first_of(raw, "WWW-Authenticate:".as_bytes(), "www-authenticate:".as_bytes());
        proof {
            lemma_find_spec_bound(raw@, "WWW-Authenticate:".spec_bytes());
            lemma_find_spec_bound(raw@, "www-authenticate:".spec_bytes());
        }
        if let Some(pos) = at {
            let line = &raw[pos..raw.len()];
            assert(line@ =~= raw@.subrange(pos as int, raw@.len() as int));
            extract_field(line, "realm".as_bytes(), &mut resp.auth_realm);
            extract_field(line, "nonce".as_bytes(), &mut resp.auth_nonce);
            extract_field(line, "qop".as_bytes(), &mut resp.auth_qop);
            extract_field(line, "opaque".as_bytes(), &mut resp.auth_opaque);
        }
    }

    let head = &raw[0..body_start];
    assert(head@ =~= raw@.take(header_end(raw@)));
    let chunked = ascii_find(head, "Transfer-Encoding: chunked".as_bytes()).is_some()
        || ascii_find(head, "transfer-encoding: chunked".as_bytes()).is_some()
        || ascii_find(head, "Transfer-Encoding:chunked".as_bytes()).is_some();

    if chunked {
        proof {
            lemma_dechunk_len(raw@, body_start as int, Seq::empty());
        }
        let n = decode_chunked(raw, body_start, &mut resp.body);
        resp.body_len = n as u32;
    } else {
        let avail = raw.len() - body_start;
        let mut to_copy = avail;
        if content_length > 0 && content_length < avail as u64 {
            to_copy = content_length as usize;
        }
        if to_copy > HTTP_MAX_BODY - 1 {
            to_copy = HTTP_MAX_BODY - 1;
        }
        assert(raw@.subrange(body_start as int, body_start + to_copy) =~= plain_body(raw@));
        copy_to(&mut resp.body, 0, raw, body_start, to_copy);
        resp.body[to_copy] = 0;
        resp.body_len = to_copy as u32;
        assert(resp.body@ =~= stored_c_string(old(resp).body@.update(0, 0u8), plain_body(raw@)));
    }
    assert(chunked == is_chunked(raw@));
    assert(resp.body@ == stored_c_string(old(resp).body@.update(0, 0u8), response_body(raw@)));
    assert(resp.body_len == response_body(raw@).len());
    assert(resp.status_code == status_digits(raw@, sp as int, 3));
    assert(resp.auth_realm@ == challenge_param(old(resp).auth_realm@, raw@, code as nat, "realm".spec_bytes()));
    Ok(())
}


// ---------------------------------------------------------------------------
// Digest authentication (RFC 2617, qop "auth", MD5)
// ---------------------------------------------------------------------------

/// The client nonce sent with every request.
pub open spec fn cnonce() -> Seq<u8> {
    "uefiboot".spec_bytes()
}

/// HA1 input: `username:realm:password`, as much of it as fits in 256 bytes.
pub open spec fn ha1_input(auth: DigestAuthView) -> Seq<u8> {
    let t = c_str(auth.username) + seq![0x3Au8] + c_str(auth.realm) + seq![0x3Au8] + c_str(
        auth.password,
    );
    if t.len() <= 256 {
        t
    } else {
        t.take(256)
    }
}

/// HA2: the digest of `POST:/wsman`, in hex.
pub open spec fn ha2_hex() -> Seq<u8> {
    hex_of(md5("POST:/wsman".spec_bytes()))
}

/// The input of the response digest for nonce count `nc`:
/// `HA1:nonce:nc:cnonce:auth:HA2`, or `HA1:nonce:HA2` when no qop was offered.
pub open spec fn response_input(auth: DigestAuthView, nc: u32) -> Seq<u8> {
    let colon = seq![0x3Au8];
    let qop_part = if auth.qop[0] != 0 {
        hex32(nc) + colon + cnonce() + colon + "auth".spec_bytes() + colon
    } else {
        Seq::empty()
    };
    hex_of(md5(ha1_input(auth))) + colon + c_str(auth.nonce) + colon + qop_part + ha2_hex()
}

/// The request digest, in hex.
pub open spec fn digest_response(auth: DigestAuthView, nc: u32) -> Seq<u8> {
    hex_of(md5(response_input(auth, nc)))
}

/// The Authorization header value for nonce count `nc`.
pub open spec fn auth_header(auth: DigestAuthView, nc: u32) -> Seq<u8> {
    let quote = seq![0x22u8];
    let opaque_part = if auth.opaque[0] != 0 {
        ",opaque=\"".spec_bytes() + c_str(auth.opaque) + quote
    } else {
        Seq::empty()
    };
    let qop_part = if auth.qop[0] != 0 {
        ",qop=\"auth\",nc=\"".spec_bytes() + hex32(nc) + "\",cnonce=\"".spec_bytes() + cnonce() + quote
    } else {
        Seq::empty()
    };
    "Digest username=\"".spec_bytes() + c_str(auth.username) + "\",realm=\"".spec_bytes() + c_str(
        auth.realm,
    ) + "\",nonce=\"".spec_bytes() + c_str(auth.nonce) + "\",uri=\"/wsman\",response=\"".spec_bytes()
        + digest_response(auth, nc) + quote + opaque_part + qop_part
}

/// The same credentials with nonce count `nc`.
pub open spec fn with_nc(a: DigestAuthView, nc: u32) -> DigestAuthView {
    DigestAuthView { nc: nc, ..a }
}

/// The MD5 digest of `data` in hex, NUL-terminated.
pub(crate) fn digest_hex(data: &[u8], hex: &mut [u8; 33])
    requires
        data@.len() < 0x0100_0000_0000_0000,
    ensures
        final(hex)@ == hex_of(md5(data@)).push(0u8),
        c_str(final(hex)@) == hex_of(md5(data@)),
{
    let mut digest = [0u8; 16];
    md5_hash(data, &mut digest);
    md5_hex(&digest, hex);
    proof {
        lemma_hex_c_str(md5(data@));
    }
}

/// The request digest for nonce count `nc`, in hex, NUL-terminated.
fn response_digest(auth: &DigestAuth, nc: u32, out: &mut [u8; 33])
    ensures
        c_str(final(out)@) == digest_response(auth@, nc),
{
    let ghost a = auth@;
    proof {
        reveal_strlit("POST:/wsman");
        reveal_strlit("uefiboot");
        reveal_strlit("auth");
        lemma_text("POST:/wsman");
        lemma_text("uefiboot");
        lemma_text("auth");
        lemma_c_len(auth.username@);
        lemma_c_len(auth.realm@);
        lemma_c_len(auth.password@);
        lemma_c_len(auth.nonce@);
    }
    // HA1 = MD5(username:realm:password)
    let mut ha1_hex = [0u8; 33];
    let mut a1: Vec<u8> = Vec::new();
    push_c_str(&mut a1, &auth.username);
    a1.push(0x3A);
    push_c_str(&mut a1, &auth.realm);
    a1.push(0x3A);
    push_c_str(&mut a1, &auth.password);
    a1.truncate(256);
    assert(a1@ == ha1_input(a));
    digest_hex(a1.as_slice(), &mut ha1_hex);

    // HA2 = MD5("POST:/wsman")
    let mut ha2_hex = [0u8; 33];
    digest_hex("POST:/wsman".as_bytes(), &mut ha2_hex);

    let mut nc_str = [0u8; 9];
    append_hex32(&mut nc_str, 0, nc);
    let nc_hex = &nc_str[0..8];
    assert(nc_hex@ =~= hex32(nc));

    let mut ri: Vec<u8> = Vec::new();
    push_c_str(&mut ri, &ha1_hex);
    ri.push(0x3A);
    push_c_str(&mut ri, &auth.nonce);
    ri.push(0x3A);
    if auth.qop[0] != 0 {
        push_bytes(&mut ri, nc_hex);
        ri.push(0x3A);
        push_bytes(&mut ri, "uefiboot".as_bytes());
        ri.push(0x3A);
        push_bytes(&mut ri, "auth".as_bytes());
        ri.push(0x3A);
    }
    push_c_str(&mut ri, &ha2_hex);
    assert(ri@ =~= response_input(a, nc));
    digest_hex(ri.as_slice(), out);
}

/// The Authorization header value, given the request digest.
fn header_text(auth: &DigestAuth, nc: u32, resp_hex: &[u8; 33]) -> (h: Vec<u8>)
    requires
        c_str(resp_hex@) == digest_response(auth@, nc),
    ensures
        h@ == auth_header(auth@, nc),
{
    let mut nc_str = [0u8; 9];
    append_hex32(&mut nc_str, 0, nc);
    let nc_hex = &nc_str[0..8];
    assert(nc_hex@ =~= hex32(nc));
    let mut h: Vec<u8> = Vec::new();
    push_bytes(&mut h, "Digest username=\"".as_bytes());
    push_c_str(&mut h, &auth.username);
    push_bytes(&mut h, "\",realm=\"".as_bytes());
    push_c_str(&mut h, &auth.realm);
    push_bytes(&mut h, "\",nonce=\"".as_bytes());
    push_c_str(&mut h, &auth.nonce);
    push_bytes(&mut h, "\",uri=\"/wsman\",response=\"".as_bytes());
    push_c_str(&mut h, resp_hex);
    h.push(0x22);
    if auth.opaque[0] != 0 {
        push_bytes(&mut h, ",opaque=\"".as_bytes());
        push_c_str(&mut h, &auth.opaque);
        h.push(0x22);
    }
    if auth.qop[0] != 0 {
        push_bytes(&mut h, ",qop=\"auth\",nc=\"".as_bytes());
        push_bytes(&mut h, nc_hex);
        push_bytes(&mut h, "\",cnonce=\"".as_bytes());
        push_bytes(&mut h, "uefiboot".as_bytes());
        h.push(0x22);
    }
    assert(h@ =~= auth_header(auth@, nc));
    h
}


/// HA1 covers the whole credentials: whenever `username:realm:password`
/// (the C strings of the three fields) is at most 256 bytes, HA1 is the MD5
/// of exactly that text, and the request digest is
/// MD5(hex(HA1):nonce:nc:cnonce:auth:hex(MD5("POST:/wsman"))) (without the
/// nc, cnonce and qop parts when no qop was offered).
pub proof fn lemma_ha1_whole_credentials(a: DigestAuthView, nc: u32)
    requires
        c_len(a.username) + c_len(a.realm) + c_len(a.password) + 2 <= 256,
    ensures
        ({
            let colon = seq![0x3Au8];
            let joined = c_str(a.username) + colon + c_str(a.realm) + colon + c_str(a.password);
            let ha1 = hex_of(md5(joined));
            let ha2 = hex_of(md5("POST:/wsman".spec_bytes()));
            &&& ha1_input(a) == joined
            &&& digest_response(a, nc) == hex_of(md5(if a.qop[0] != 0 {
                ha1 + colon + c_str(a.nonce) + colon + hex32(nc) + colon + "uefiboot".spec_bytes() + colon
                    + "auth".spec_bytes() + colon + ha2
            } else {
                ha1 + colon + c_str(a.nonce) + colon + ha2
            }))
        }),
{
    lemma_c_len(a.username);
    lemma_c_len(a.realm);
    lemma_c_len(a.password);
    let colon = seq![0x3Au8];
    let joined = c_str(a.username) + colon + c_str(a.realm) + colon + c_str(a.password);
    assert(joined.len() <= 256);
    assert(ha1_input(a) == joined);
    let ha1 = hex_of(md5(joined));
    let ha2 = hex_of(md5("POST:/wsman".spec_bytes()));
    if a.qop[0] != 0 {
        assert(response_input(a, nc) =~= ha1 + colon + c_str(a.nonce) + colon + hex32(nc) + colon
            + "uefiboot".spec_bytes() + colon + "auth".spec_bytes() + colon + ha2);
    } else {
        assert(response_input(a, nc) =~= ha1 + colon + c_str(a.nonce) + colon + ha2);
    }
}

/// Counts one more use of the nonce and writes the Digest Authorization
/// header value for it into `buf` (truncated to `buf`, NUL-terminated where
/// room is left); returns its length.
pub fn build_auth_header(auth: &mut DigestAuth, buf: &mut [u8]) -> (o: usize)
    requires
        old(auth).nc < u32::MAX,
    ensures
        final(auth)@ == with_nc(old(auth)@, (old(auth).nc + 1) as u32),
        o == fit(old(buf)@.len() as int, 0, auth_header(old(auth)@, final(auth).nc).len() as int),
        final(buf)@ == written_text(old(buf)@, auth_header(old(auth)@, final(auth).nc)),
{
    let nc = auth.nc + 1;
    let mut resp_hex = [0u8; 33];
    response_digest(auth, nc, &mut resp_hex);
    let h = header_text(auth, nc, &resp_hex);
    auth.nc = nc;
    assert(auth@ == with_nc(old(auth)@, nc));
    let o = append_bytes(buf, 0, h.as_slice());
    if o < buf.len() {
        buf[o] = 0;
    }
    o
}

/// The request's text for `body`: request line and headers, the Authorization
/// header (at most 512 bytes of it) once a nonce is known, a blank line and
/// the body.
pub open spec fn post_request_text(body: Seq<u8>, auth: DigestAuthView) -> Seq<u8> {
    let crlf = seq![0x0Du8, 0x0Au8];
    let auth_part = if auth.nonce[0] != 0 {
        let h = auth_header(auth, (auth.nc + 1) as u32);
        "Authorization: ".spec_bytes() + (if h.len() <= 512 {
            h
        } else {
            h.take(512)
        }) + crlf
    } else {
        Seq::empty()
    };
    "POST /wsman HTTP/1.1\r\n".spec_bytes() + "Host: 127.0.0.1:16992\r\n".spec_bytes()
        + "Connection: close\r\n".spec_bytes()
        + "Content-Type: application/soap+xml; charset=utf-8\r\n".spec_bytes()
        + "Content-Length: ".spec_bytes() + decimal((body.len() as u32) as nat) + crlf + auth_part
        + crlf + body
}

/// The credentials after a request is built: one more use of a known nonce.
pub open spec fn posted(a: DigestAuthView) -> DigestAuthView {
    if a.nonce[0] != 0 {
        with_nc(a, (a.nc + 1) as u32)
    } else {
        a
    }
}


/// After a challenge that carries a nonce, the next request counts its first
/// use of that nonce: the Authorization it sends has nonce count 1.
pub proof fn lemma_first_use_after_challenge(
    auth: DigestAuth,
    challenge: HttpResponse,
    username: Seq<u8>,
    password: Seq<u8>,
)
    requires
        c_len(challenge.auth_nonce@) > 0,
    ensures
        ({
            let c = challenged(auth@, challenge, username, password);
            &&& c.nonce[0] != 0
            &&& c.nc == 0
            &&& posted(c) == with_nc(c, 1)
        }),
{
    lemma_c_len(challenge.auth_nonce@);
    let c = challenged(auth@, challenge, username, password);
    assert(c_str(challenge.auth_nonce@)[0] == challenge.auth_nonce@[0]);
    assert(c.nonce[0] == challenge.auth_nonce@[0]);
}

/// The HTTP POST of `body` to `/wsman`, cut to the 2048-byte request buffer.
/// Once a nonce is known it carries a digest Authorization, which counts one
/// more use of the nonce.
#[verifier::spinoff_prover]
#[verifier::rlimit(40)]
pub fn post_request(body: &[u8], auth: &mut DigestAuth) -> (req: Vec<u8>)
    requires
        old(auth).nonce@[0] != 0 ==> old(auth).nc < u32::MAX,
    ensures
        ({
            let t = post_request_text(body@, old(auth)@);
            req@ == (if t.len() <= 2048 { t } else { t.take(2048) })
        }),
        final(auth)@ == posted(old(auth)@),
{
    let ghost a0 = auth@;
    let mut req: Vec<u8> = Vec::new();
    push_bytes(&mut req, "POST /wsman HTTP/1.1\r\n".as_bytes());
    push_bytes(&mut req, "Host: 127.0.0.1:16992\r\n".as_bytes());
    push_bytes(&mut req, "Connection: close\r\n".as_bytes());
    push_bytes(&mut req, "Content-Type: application/soap+xml; charset=utf-8\r\n".as_bytes());
    push_bytes(&mut req, "Content-Length: ".as_bytes());
    push_u32(&mut req, body.len() as u32);
    req.push(0x0D);
    req.push(0x0A);
    if auth.nonce[0] != 0 {
        push_bytes(&mut req, "Authorization: ".as_bytes());
        let mut auth_val = [0u8; 512];
        let auth_len = build_auth_header(auth, &mut auth_val);
        let v = &auth_val[0..auth_len];
        assert(v@ =~= {
            let h = auth_header(a0, (a0.nc + 1) as u32);
            if h.len() <= 512 {
                h
            } else {
                h.take(512)
            }
        });
        push_bytes(&mut req, v);
        req.push(0x0D);
        req.push(0x0A);
    }
    req.push(0x0D);
    req.push(0x0A);
    push_bytes(&mut req, body);
    assert(req@ =~= post_request_text(body@, a0));
    req.truncate(2048);
    req
}

} // verus!
