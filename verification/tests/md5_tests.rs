use uefi_amt_provision::md5::{md5_hash, md5_hex};

fn hex_of(data: &[u8]) -> String {
    let mut digest = [0u8; 16];
    md5_hash(data, &mut digest);
    let mut hex = [0u8; 33];
    md5_hex(&digest, &mut hex);
    assert_eq!(hex[32], 0);
    String::from_utf8(hex[..32].to_vec()).unwrap()
}

#[test]
fn md5_empty() {
    assert_eq!(hex_of(b""), "d41d8cd98f00b204e9800998ecf8427e");
}

#[test]
fn md5_abc() {
    assert_eq!(hex_of(b"abc"), "900150983cd24fb0d6963f7d28e17f72");
}

#[test]
fn md5_quick_brown_fox() {
    assert_eq!(hex_of(b"The quick brown fox jumps over the lazy dog"), "9e107d9d372bb6826bd81d3542a419d6");
}

#[test]
fn md5_padding_boundaries() {
    assert_eq!(hex_of(&[b'a'; 55]), "ef1772b6dff9a122358552954ad0df65");
    assert_eq!(hex_of(&[b'a'; 56]), "3b0c8ac703f828b04c6c197006d17218");
    assert_eq!(hex_of(&[b'a'; 64]), "014842d480b571495a4a0363793f7367");
    assert_eq!(hex_of(&[b'a'; 100]), "36a92cc94a9e0fa21f625f8bfb007adf");
}

#[test]
fn md5_hex_two_digits_per_byte() {
    let digest = [0x00u8, 0x01, 0x7f, 0x80, 0xff, 0x10, 0x0a, 0xa0, 0, 0, 0, 0, 0, 0, 0, 0xab];
    let mut hex = [0xEEu8; 33];
    md5_hex(&digest, &mut hex);
    assert_eq!(&hex[..32], b"00017f80ff100aa000000000000000ab");
    assert_eq!(hex[32], 0);
}
