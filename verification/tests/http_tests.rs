use uefi_amt_provision::error::Error;
use uefi_amt_provision::http::{
    build_auth_header, copy_str, digest_from_challenge, parse_response, post_request, DigestAuth, HttpResponse,
};

fn parse(text: &[u8]) -> (Result<(), Error>, HttpResponse) {
    let mut resp = HttpResponse::new();
    let r = parse_response(text, text.len() as u32, &mut resp);
    (r, resp)
}

fn body(resp: &HttpResponse) -> &[u8] {
    &resp.body[..resp.body_len as usize]
}

fn c_str(b: &[u8]) -> &[u8] {
    let n = b.iter().position(|&c| c == 0).unwrap_or(b.len());
    &b[..n]
}

#[test]
fn parse_plain_body_with_content_length() {
    let (r, resp) = parse(b"HTTP/1.1 200 OK\r\nContent-Length: 5\r\n\r\nhello world");
    assert!(r.is_ok());
    assert_eq!(resp.status_code, 200);
    assert_eq!(body(&resp), b"hello");
    assert_eq!(resp.body[5], 0);
}

#[test]
fn parse_plain_body_without_content_length() {
    let (r, resp) = parse(b"HTTP/1.0 404 Not Found\r\nServer: x\r\n\r\n<html/>");
    assert!(r.is_ok());
    assert_eq!(resp.status_code, 404);
    assert_eq!(body(&resp), b"<html/>");
}

#[test]
fn parse_content_length_larger_than_data() {
    let (_, resp) = parse(b"HTTP/1.1 200 OK\r\ncontent-length:   99\r\n\r\nabc");
    assert_eq!(body(&resp), b"abc");
}

#[test]
fn parse_chunked_body() {
    let (r, resp) = parse(
        b"HTTP/1.1 200 OK\r\nTransfer-Encoding: chunked\r\n\r\n5\r\nhello\r\nA\r\n, world!!!\r\n0\r\n\r\n",
    );
    assert!(r.is_ok());
    assert_eq!(resp.status_code, 200);
    assert_eq!(body(&resp), b"hello, world!!!");
}

#[test]
fn parse_chunked_size_beyond_data() {
    let (_, resp) = parse(b"HTTP/1.1 200 OK\r\ntransfer-encoding: chunked\r\n\r\nff\r\nshort");
    assert_eq!(body(&resp), b"short");
}

#[test]
fn parse_digest_challenge_on_401() {
    let (r, resp) = parse(
        b"HTTP/1.1 401 Unauthorized\r\nWWW-Authenticate: Digest realm=\"Digest:A1B2\", nonce=\"abc123\", qop=\"auth\", opaque=\"xyz\"\r\nContent-Length: 0\r\n\r\n",
    );
    assert!(r.is_ok());
    assert_eq!(resp.status_code, 401);
    assert_eq!(c_str(&resp.auth_realm), b"Digest:A1B2");
    assert_eq!(c_str(&resp.auth_nonce), b"abc123");
    assert_eq!(c_str(&resp.auth_qop), b"auth");
    assert_eq!(c_str(&resp.auth_opaque), b"xyz");
    assert_eq!(resp.body_len, 0);
}

#[test]
fn parse_challenge_ignored_unless_401() {
    let (_, resp) = parse(b"HTTP/1.1 200 OK\r\nWWW-Authenticate: Digest realm=\"r\"\r\n\r\n");
    assert_eq!(c_str(&resp.auth_realm), b"");
}

#[test]
fn parse_without_status_line_is_protocol_error() {
    let mut resp = HttpResponse::new();
    resp.status_code = 7;
    resp.body_len = 3;
    let r = parse_response(b"garbage", 7, &mut resp);
    assert!(matches!(r, Err(Error::ProtocolError)));
    assert_eq!(resp.status_code, 0);
    assert_eq!(resp.body_len, 0);
}

#[test]
fn parse_reads_only_len_bytes() {
    let data = b"HTTP/1.1 200 OK\r\n\r\nabcdef";
    let mut resp = HttpResponse::new();
    parse_response(data, (data.len() - 3) as u32, &mut resp).unwrap();
    assert_eq!(body(&resp), b"abc");
}

#[test]
fn copy_str_truncates_and_terminates() {
    let mut dst = [0xFFu8; 4];
    copy_str(&mut dst, b"abcdef");
    assert_eq!(&dst, b"abc\0");
    let mut dst = [0xFFu8; 6];
    copy_str(&mut dst, b"ab\0cd");
    assert_eq!(&dst, b"ab\0\xFF\xFF\xFF");
}

fn challenge() -> HttpResponse {
    let (_, resp) = parse(
        b"HTTP/1.1 401 Unauthorized\r\nWWW-Authenticate: Digest realm=\"Digest:A1B2\", nonce=\"abc123\", qop=\"auth\", opaque=\"xyz\"\r\n\r\n",
    );
    resp
}

#[test]
fn digest_from_challenge_copies_and_resets_count() {
    let mut auth = DigestAuth::new();
    auth.nc = 9;
    digest_from_challenge(&mut auth, &challenge(), b"lsauser", b"lsapass");
    assert_eq!(c_str(&auth.username), b"lsauser");
    assert_eq!(c_str(&auth.password), b"lsapass");
    assert_eq!(c_str(&auth.realm), b"Digest:A1B2");
    assert_eq!(c_str(&auth.nonce), b"abc123");
    assert_eq!(c_str(&auth.qop), b"auth");
    assert_eq!(c_str(&auth.opaque), b"xyz");
    assert_eq!(auth.nc, 0);
}

#[test]
fn auth_header_rfc2617_digest() {
    let mut auth = DigestAuth::new();
    digest_from_challenge(&mut auth, &challenge(), b"lsauser", b"lsapass");
    let mut buf = [0xFFu8; 512];
    let n = build_auth_header(&mut auth, &mut buf);
    let expected: &[u8] = b"Digest username=\"lsauser\",realm=\"Digest:A1B2\",nonce=\"abc123\",uri=\"/wsman\",response=\"2182b92c99186af22e975dd5e2fe4880\",opaque=\"xyz\",qop=\"auth\",nc=\"00000001\",cnonce=\"uefiboot\"";
    assert_eq!(&buf[..n], expected);
    assert_eq!(buf[n], 0);
    assert_eq!(auth.nc, 1);
    // the second use counts 2
    let n = build_auth_header(&mut auth, &mut buf);
    assert!(buf[..n].windows(12).any(|w| w == b"nc=\"00000002"));
    assert!(buf[..n].windows(32).any(|w| w == b"ccc2ae561cab7bfea575cbd7d8b89f03"));
}

#[test]
fn auth_header_without_qop_or_opaque() {
    let (_, resp) = parse(b"HTTP/1.1 401 X\r\nWWW-Authenticate: Digest realm=\"Digest:A1B2\", nonce=\"abc123\"\r\n\r\n");
    let mut auth = DigestAuth::new();
    digest_from_challenge(&mut auth, &resp, b"lsauser", b"lsapass");
    let mut buf = [0u8; 512];
    let n = build_auth_header(&mut auth, &mut buf);
    let expected: &[u8] = b"Digest username=\"lsauser\",realm=\"Digest:A1B2\",nonce=\"abc123\",uri=\"/wsman\",response=\"06c4ca71cd521de62c57f265eb2af9ab\"";
    assert_eq!(&buf[..n], expected);
}

#[test]
fn auth_header_truncated_to_buffer() {
    let mut auth = DigestAuth::new();
    digest_from_challenge(&mut auth, &challenge(), b"lsauser", b"lsapass");
    let mut buf = [0u8; 10];
    let n = build_auth_header(&mut auth, &mut buf);
    assert_eq!(n, 10);
    assert_eq!(&buf, b"Digest use");
}

#[test]
fn post_request_without_nonce_has_no_authorization() {
    let mut auth = DigestAuth::new();
    let req = post_request(b"<x/>", &mut auth);
    let expected: &[u8] = b"POST /wsman HTTP/1.1\r\nHost: 127.0.0.1:16992\r\nConnection: close\r\nContent-Type: application/soap+xml; charset=utf-8\r\nContent-Length: 4\r\n\r\n<x/>";
    assert_eq!(&req[..], expected);
    assert_eq!(auth.nc, 0);
}

#[test]
fn post_request_with_nonce_carries_digest() {
    let mut auth = DigestAuth::new();
    digest_from_challenge(&mut auth, &challenge(), b"lsauser", b"lsapass");
    let req = post_request(b"<x/>", &mut auth);
    let text = String::from_utf8(req).unwrap();
    assert!(text.starts_with("POST /wsman HTTP/1.1\r\n"));
    assert!(text.contains("Content-Length: 4\r\nAuthorization: Digest username=\"lsauser\""));
    assert!(text.contains("response=\"2182b92c99186af22e975dd5e2fe4880\""));
    assert!(text.ends_with("cnonce=\"uefiboot\"\r\n\r\n<x/>"));
    assert_eq!(auth.nc, 1);
}

#[test]
fn post_request_cut_to_request_buffer() {
    let mut auth = DigestAuth::new();
    let big = vec![b'x'; 3000];
    let req = post_request(&big, &mut auth);
    assert_eq!(req.len(), 2048);
    assert!(req.starts_with(b"POST /wsman"));
}

#[test]
fn content_length_written_is_read_back() {
    let mut auth = DigestAuth::new();
    let req = post_request(&[b'q'; 123], &mut auth);
    let mut text = b"HTTP/1.1 200 OK\r\n".to_vec();
    text.extend_from_slice(&req[req.iter().position(|&c| c == b'C' && true).unwrap()..]);
    let (_, resp) = parse(&text);
    assert_eq!(resp.body_len, 123);
}

#[test]
fn single_chunk_with_eight_digit_size_decodes_to_itself() {
    let (_, resp) = parse(b"HTTP/1.1 200 OK\r\nTransfer-Encoding: chunked\r\n\r\n0000000b\r\nhello world\r\n0\r\n\r\n");
    assert_eq!(body(&resp), b"hello world");
}
