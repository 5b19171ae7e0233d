use uefi_amt_provision::error::Error;
use uefi_amt_provision::report::{
    activation_allowed, confirmed, deactivate_check, dhcp_str, format_error, format_ipv4, format_mac,
    format_pwd_len, format_uuid, link_status_str, menu_choice, provisioning_state_str, shown_name_len,
    DeactivateCheck, MenuChoice, DEFAULT_AMT_PASSWORD,
};

#[test]
fn ipv4_dotted_decimal() {
    let mut buf = [0xEEu8; 16];
    let n = format_ipv4(&[192, 168, 1, 10], &mut buf);
    assert_eq!(&buf[..n], b"192.168.1.10");
    let n = format_ipv4(&[0, 0, 0, 0], &mut buf);
    assert_eq!(&buf[..n], b"0.0.0.0");
    let n = format_ipv4(&[255, 255, 255, 255], &mut buf);
    assert_eq!(&buf[..n], b"255.255.255.255");
    assert_eq!(n, 15);
}

#[test]
fn mac_colon_hex() {
    let mut buf = [0xEEu8; 18];
    format_mac(&[0x00, 0x1b, 0x21, 0xAB, 0xcd, 0xFF], &mut buf);
    assert_eq!(&buf[..17], b"00:1b:21:ab:cd:ff");
    assert_eq!(buf[17], 0xEE);
}

#[test]
fn uuid_mixed_endian() {
    let uuid = [
        0x33, 0x22, 0x11, 0x00, 0x55, 0x44, 0x77, 0x66, 0x88, 0x99, 0xaa, 0xbb, 0xcc, 0xdd, 0xee, 0xff,
    ];
    let mut buf = [0u8; 36];
    format_uuid(&uuid, &mut buf);
    assert_eq!(&buf, b"00112233-4455-6677-8899-aabbccddeeff");
}

#[test]
fn password_length_text() {
    let mut buf = [0u8; 24];
    let n = format_pwd_len(&mut buf, 0);
    assert_eq!(&buf[..n], b"(0 chars)");
    let n = format_pwd_len(&mut buf, 32);
    assert_eq!(&buf[..n], b"(32 chars)");
    let n = format_pwd_len(&mut buf, 9_999_999_999);
    assert_eq!(&buf[..n], b"(9999999999 chars)");
}

fn err_text(e: Error) -> String {
    let mut buf = [0u8; 40];
    let n = format_error(&mut buf, e);
    String::from_utf8(buf[..n].to_vec()).unwrap()
}

#[test]
fn error_texts() {
    assert_eq!(err_text(Error::Timeout), "FAILED (Timeout)");
    assert_eq!(err_text(Error::NotFound), "FAILED (Not Found)");
    assert_eq!(err_text(Error::AccessDenied), "FAILED (Access Denied)");
    assert_eq!(err_text(Error::DeviceError), "FAILED (Device Error)");
    assert_eq!(err_text(Error::ProtocolError), "FAILED (Protocol Error)");
    assert_eq!(err_text(Error::BufferTooSmall), "FAILED (Buffer Too Small)");
    assert_eq!(err_text(Error::Unsupported), "FAILED (Unsupported)");
    assert_eq!(err_text(Error::Aborted), "FAILED (Aborted)");
    assert_eq!(err_text(Error::AmtStatus(0)), "FAILED (AMT 0)");
    assert_eq!(err_text(Error::AmtStatus(2053)), "FAILED (AMT 2053)");
    assert_eq!(err_text(Error::HttpStatus(401)), "FAILED (HTTP 401)");
    assert_eq!(err_text(Error::HttpStatus(u32::MAX)), "FAILED (HTTP 4294967295)");
}

#[test]
fn labels() {
    assert_eq!(provisioning_state_str(0), "Pre-Provisioning");
    assert_eq!(provisioning_state_str(1), "In Provisioning");
    assert_eq!(provisioning_state_str(2), "Post-Provisioning");
    assert_eq!(provisioning_state_str(3), "Unknown");
    assert_eq!(link_status_str(1), "up");
    assert_eq!(link_status_str(0), "down");
    assert_eq!(link_status_str(2), "down");
    assert_eq!(dhcp_str(true), "Enabled");
    assert_eq!(dhcp_str(false), "Disabled");
    assert_eq!(DEFAULT_AMT_PASSWORD, "P@ssw0rd");
}

#[test]
fn shown_user_name() {
    assert_eq!(shown_name_len(b"admin\0\0\0"), 5);
    assert_eq!(shown_name_len(b"\0abc"), 0);
    assert_eq!(shown_name_len(b"nonul"), 0);
}

#[test]
fn flow_decisions() {
    assert!(deactivate_check(0) == DeactivateCheck::NothingToDo);
    assert!(deactivate_check(1) == DeactivateCheck::Confirm);
    assert!(deactivate_check(2) == DeactivateCheck::AdminControlMode);
    assert!(deactivate_check(7) == DeactivateCheck::Confirm);
    assert!(activation_allowed(0));
    assert!(!activation_allowed(1));
    assert!(confirmed('y') && confirmed('Y'));
    assert!(!confirmed('n'));
}

#[test]
fn menu_keys() {
    assert!(menu_choice('a') == MenuChoice::AmtInfo);
    assert!(menu_choice('B') == MenuChoice::Deactivate);
    assert!(menu_choice('c') == MenuChoice::Activate);
    assert!(menu_choice('D') == MenuChoice::SetDnsSuffix);
    assert!(menu_choice('q') == MenuChoice::Quit);
    assert!(menu_choice('x') == MenuChoice::Nothing);
}
