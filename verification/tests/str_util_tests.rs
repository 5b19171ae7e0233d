use uefi_amt_provision::str_util::{
    append_bytes, append_hex32, append_u32, ascii_append, ascii_eq_ignore_case, ascii_find, ascii_len,
    extract_field,
};

#[test]
fn ascii_len_stops_at_nul() {
    assert_eq!(ascii_len(b"hello\0world"), 5);
    assert_eq!(ascii_len(b"abc"), 3);
    assert_eq!(ascii_len(b"\0abc"), 0);
    assert_eq!(ascii_len(b""), 0);
}

#[test]
fn ascii_find_first_occurrence() {
    assert_eq!(ascii_find(b"abcabc", b"bc"), Some(1));
    assert_eq!(ascii_find(b"abcabc", b"cab"), Some(2));
    assert_eq!(ascii_find(b"abc", b"abcd"), None);
    assert_eq!(ascii_find(b"abc", b"x"), None);
    assert_eq!(ascii_find(b"abc", b""), Some(0));
    // the haystack ends at its NUL
    assert_eq!(ascii_find(b"ab\0cd", b"cd"), None);
}

#[test]
fn ascii_append_copies_c_string_and_truncates() {
    let mut buf = [0xAAu8; 8];
    let p = ascii_append(&mut buf, 0, b"abc\0zzz");
    assert_eq!(p, 3);
    assert_eq!(&buf[..3], b"abc");
    assert_eq!(buf[3], 0xAA);
    let p = ascii_append(&mut buf, p, b"defghij");
    assert_eq!(p, 8);
    assert_eq!(&buf, b"abcdefgh");
    // past the end nothing is written
    assert_eq!(ascii_append(&mut buf, 9, b"x"), 9);
}

#[test]
fn append_bytes_keeps_nul_and_truncates() {
    let mut buf = [0u8; 5];
    let p = append_bytes(&mut buf, 1, b"a\0b");
    assert_eq!(p, 4);
    assert_eq!(&buf, b"\0a\0b\0");
    let p = append_bytes(&mut buf, p, b"xyz");
    assert_eq!(p, 5);
    assert_eq!(&buf, b"\0a\0bx");
}

#[test]
fn append_then_append_equals_one_append() {
    let mut a = [0u8; 10];
    let p = append_bytes(&mut a, 0, b"hello ");
    let q = append_bytes(&mut a, p, b"world");
    let mut b = [0u8; 10];
    let r = append_bytes(&mut b, 0, b"hello world");
    assert_eq!(q, r);
    assert_eq!(a, b);
}

#[test]
fn append_u32_decimal() {
    let mut buf = [0u8; 16];
    let p = append_u32(&mut buf, 0, 0);
    assert_eq!(&buf[..p], b"0");
    let p = append_u32(&mut buf, 0, 1234);
    assert_eq!(&buf[..p], b"1234");
    let p = append_u32(&mut buf, 0, u32::MAX);
    assert_eq!(&buf[..p], b"4294967295");
    let mut small = [0u8; 3];
    assert_eq!(append_u32(&mut small, 1, 98765), 3);
    assert_eq!(&small, b"\098");
}

#[test]
fn append_hex32_eight_lower_digits() {
    let mut buf = [0u8; 9];
    let p = append_hex32(&mut buf, 0, 0xDEADBEEF);
    assert_eq!(p, 8);
    assert_eq!(&buf[..8], b"deadbeef");
    let p = append_hex32(&mut buf, 0, 1);
    assert_eq!(&buf[..p], b"00000001");
}

#[test]
fn eq_ignore_case_ascii_only() {
    assert!(ascii_eq_ignore_case(b"Realm", b"rEALM"));
    assert!(!ascii_eq_ignore_case(b"realm", b"realms"));
    assert!(!ascii_eq_ignore_case(b"a[", b"A{"));
    assert!(ascii_eq_ignore_case(b"", b""));
}

#[test]
fn extract_field_quoted_and_bare() {
    let src = b"Digest realm=\"Digest:ABCD\", nonce=\"n0nce\", qop=auth, opaque=\"op\"";
    let mut out = [0xFFu8; 32];
    let n = extract_field(src, b"realm", &mut out);
    assert_eq!(n, 11);
    assert_eq!(&out[..12], b"Digest:ABCD\0");
    let n = extract_field(src, b"qop", &mut out);
    assert_eq!(n, 4);
    assert_eq!(&out[..5], b"auth\0");
    // keys match regardless of case
    let n = extract_field(b"NONCE=xyz\r\n", b"nonce", &mut out);
    assert_eq!(&out[..n], b"xyz");
}

#[test]
fn extract_field_missing_leaves_output() {
    let mut out = [7u8; 4];
    assert_eq!(extract_field(b"realm=\"x\"", b"nonce", &mut out), 0);
    assert_eq!(out, [7u8; 4]);
    assert_eq!(extract_field(b"realm=\"x\"", b"", &mut out), 0);
}

#[test]
fn extract_field_truncates_to_output() {
    let mut out = [0u8; 3];
    let n = extract_field(b"nonce=\"abcdef\"", b"nonce", &mut out);
    assert_eq!(n, 3);
    assert_eq!(&out, b"abc");
}

#[test]
fn quoted_field_reads_back() {
    let mut out = [0u8; 16];
    let n = extract_field(b"opaque=\"a b,c\"", b"opaque", &mut out);
    assert_eq!(&out[..n], b"a b,c");
}
