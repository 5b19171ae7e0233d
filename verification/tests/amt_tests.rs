use uefi_amt_provision::amt::{
    check_response, code_versions_request, control_mode_request, control_mode_str, dns_suffix_request,
    lan_interface_settings_request, local_system_account_request, make_header, parse_code_versions,
    parse_control_mode, parse_dns_suffix, parse_lan_interface_settings, parse_local_system_account,
    parse_provisioning_state, parse_uuid, provisioning_state_request, set_dns_suffix_request,
    unprovision_request, uuid_request, MAX_DNS_SUFFIX_LEN,
};
use uefi_amt_provision::error::Error;

fn response(status: u32, payload: &[u8], size: usize) -> Vec<u8> {
    let mut r = vec![0u8; size.max(16 + payload.len())];
    r[12..16].copy_from_slice(&status.to_le_bytes());
    r[16..16 + payload.len()].copy_from_slice(payload);
    r
}

#[test]
fn header_layout() {
    let mut buf = [0xFFu8; 14];
    make_header(&mut buf, 0x0400006B, 0x01020304);
    assert_eq!(&buf[..12], &[1, 1, 0, 0, 0x6B, 0, 0, 4, 4, 3, 2, 1]);
    assert_eq!(&buf[12..], &[0xFF, 0xFF]);
}

#[test]
fn request_builders() {
    assert_eq!(control_mode_request(), vec![1, 1, 0, 0, 0x6B, 0, 0, 4, 0, 0, 0, 0]);
    assert_eq!(provisioning_state_request()[4], 0x11);
    assert_eq!(uuid_request()[4], 0x5C);
    assert_eq!(code_versions_request()[4], 0x1A);
    assert_eq!(dns_suffix_request()[4], 0x36);
    let lsa = local_system_account_request();
    assert_eq!(lsa.len(), 52);
    assert_eq!(&lsa[4..12], &[0x67, 0, 0, 4, 40, 0, 0, 0]);
    let lan = lan_interface_settings_request(true);
    assert_eq!(&lan[8..], &[4, 0, 0, 0, 1, 0, 0, 0]);
    let lan = lan_interface_settings_request(false);
    assert_eq!(&lan[12..], &[0, 0, 0, 0]);
    let un = unprovision_request();
    assert_eq!(un.len(), 16);
    assert_eq!(&un[4..8], &[0x10, 0, 0, 4]);
}

#[test]
fn set_dns_suffix_request_layout_and_limit() {
    let req = set_dns_suffix_request(b"corp.example").unwrap();
    assert_eq!(req.len(), 12 + 2 + 12);
    assert_eq!(&req[8..12], &[14, 0, 0, 0]);
    assert_eq!(&req[12..14], &[12, 0]);
    assert_eq!(&req[14..], b"corp.example");
    let long = vec![b'a'; MAX_DNS_SUFFIX_LEN + 1];
    assert!(matches!(set_dns_suffix_request(&long), Err(Error::BufferTooSmall)));
    assert!(set_dns_suffix_request(&long[..MAX_DNS_SUFFIX_LEN]).is_ok());
}

#[test]
fn response_checks() {
    let ok = response(0, &[2, 0, 0, 0], 20);
    assert!(matches!(check_response(&ok, 20), Ok(20)));
    assert!(matches!(check_response(&ok, 15), Err(Error::DeviceError)));
    let bad = response(0x807, &[], 20);
    assert!(matches!(check_response(&bad, 20), Err(Error::AmtStatus(0x807))));
}

#[test]
fn control_mode_and_state() {
    let r = response(0, &[1, 0, 0, 0], 20);
    assert_eq!(parse_control_mode(&r, 20).unwrap(), 1);
    assert_eq!(parse_provisioning_state(&r, 20).unwrap(), 1);
    assert!(matches!(parse_control_mode(&response(1, &[], 20), 20), Err(Error::AmtStatus(1))));
    assert_eq!(control_mode_str(0), "Pre-Provisioning");
    assert_eq!(control_mode_str(1), "Client Control Mode (CCM)");
    assert_eq!(control_mode_str(2), "Admin Control Mode (ACM)");
    assert_eq!(control_mode_str(9), "Unknown");
}

#[test]
fn uuid_bytes() {
    let payload: Vec<u8> = (0u8..16).collect();
    let r = response(0, &payload, 32);
    assert_eq!(parse_uuid(&r, 32).unwrap().to_vec(), payload);
}

#[test]
fn local_system_account_fields() {
    let mut payload = vec![0u8; 66];
    payload[..5].copy_from_slice(b"$$OsA");
    payload[33..38].copy_from_slice(b"secrt");
    payload[32] = b'X';
    let r = response(0, &payload, 256);
    let lsa = parse_local_system_account(&r, 82).unwrap();
    assert_eq!(&lsa.username[..6], b"$$OsA\0");
    assert_eq!(lsa.username[32], 0);
    assert_eq!(&lsa.password[..6], b"secrt\0");
    assert!(matches!(parse_local_system_account(&r, 60), Err(Error::DeviceError)));
}

#[test]
fn dns_suffix_value() {
    let mut payload = vec![4u8, 0];
    payload.extend_from_slice(b"a.bcXYZ");
    let r = response(0, &payload, 1100);
    let (s, n) = parse_dns_suffix(&r, (16 + payload.len()) as u32).unwrap();
    assert_eq!(n, 4);
    assert_eq!(&s[..5], b"a.bc\0");
    // length beyond the data is cut to the data
    let r = response(0, &[10, 0, b'x', b'y'], 1100);
    let (_, n) = parse_dns_suffix(&r, 20).unwrap();
    assert_eq!(n, 2);
    let (_, n) = parse_dns_suffix(&r, 17).unwrap();
    assert_eq!(n, 0);
}

#[test]
fn lan_settings_fields() {
    let mut payload = vec![0u8; 20];
    payload[4..8].copy_from_slice(&0xC0A8010Au32.to_le_bytes());
    payload[8..12].copy_from_slice(&1u32.to_le_bytes());
    payload[12] = 2;
    payload[13] = 1;
    payload[14..20].copy_from_slice(&[0, 0x1b, 0x21, 0xab, 0xcd, 0xef]);
    let r = response(0, &payload, 64);
    let lan = parse_lan_interface_settings(&r, 36).unwrap();
    assert_eq!(lan.ipv4_addr, [192, 168, 1, 10]);
    assert!(lan.dhcp_enabled);
    assert_eq!(lan.dhcp_mode, 2);
    assert_eq!(lan.link_status, 1);
    assert_eq!(lan.mac_addr, [0, 0x1b, 0x21, 0xab, 0xcd, 0xef]);
    let short = parse_lan_interface_settings(&r, 30).unwrap();
    assert_eq!(short.mac_addr, [0; 6]);
    assert!(matches!(parse_lan_interface_settings(&r, 27), Err(Error::DeviceError)));
}

fn unicode_string(s: &[u8]) -> Vec<u8> {
    let mut v = (s.len() as u16).to_le_bytes().to_vec();
    let mut f = [0u8; 20];
    f[..s.len()].copy_from_slice(s);
    v.extend_from_slice(&f);
    v
}

#[test]
fn code_versions_entries_and_find() {
    let mut payload = vec![0u8; 65];
    payload[..4].copy_from_slice(b"BIOS");
    payload.extend_from_slice(&3u32.to_le_bytes());
    for (d, v) in [(b"AMT".as_ref(), b"16.1.25".as_ref()), (b"Build Number", b"2049"), (b"Sku", b"16392")] {
        payload.extend(unicode_string(d));
        payload.extend(unicode_string(v));
    }
    let r = response(0, &payload, 4096);
    let cv = parse_code_versions(&r, (16 + payload.len()) as u32).unwrap();
    assert_eq!(cv.count, 3);
    assert_eq!(&cv.bios_version[..4], b"BIOS");
    assert_eq!(cv.find(b"AMT"), Some(&b"16.1.25"[..]));
    assert_eq!(cv.find(b"Build Number"), Some(&b"2049"[..]));
    assert_eq!(cv.find(b"Sku"), Some(&b"16392"[..]));
    assert_eq!(cv.find(b"Nope"), None);
    // announced entries beyond the data are dropped
    let cv = parse_code_versions(&r, (16 + 69 + 44) as u32).unwrap();
    assert_eq!(cv.count, 1);
    // too short for a BIOS version
    let cv = parse_code_versions(&r, 40).unwrap();
    assert_eq!(cv.count, 0);
    assert_eq!(cv.bios_version, [0u8; 65]);
}
