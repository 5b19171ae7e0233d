use uefi_amt_provision::error::Error;
use uefi_amt_provision::heci::hbm::{flow_control_message, HbmAction, HbmConnect, HbmConnectStage, AMTHI_UUID};
use uefi_amt_provision::heci::regs::{csr_get_cbd, csr_get_rp, csr_get_wp, empty_slots, filled_slots, HeciMsgHdr};
use uefi_amt_provision::heci::{
    classify_incoming, ctl_code, deliver, fragment_length, is_last_fragment, pack_dwords, unpack_dwords, Incoming, Reassembly,
};
use uefi_amt_provision::pci::pci_addr;

#[test]
fn csr_fields() {
    let csr = 0x80_12_34_00u32 | 0x0B;
    assert_eq!(csr_get_rp(csr), 0x34);
    assert_eq!(csr_get_wp(csr), 0x12);
    assert_eq!(csr_get_cbd(csr), 0x80);
    assert_eq!(filled_slots(5, 3, 0x80), 2);
    assert_eq!(filled_slots(1, 0x7F, 0x80), 2);
    // wp 2, rp 0, depth 8: two filled, one reserved
    assert_eq!(empty_slots(0x08_02_00_00), 5);
}

#[test]
fn message_header_roundtrip() {
    let h = HeciMsgHdr::new(7, 3, 0x1FF, true);
    assert_eq!(h.me_addr(), 7);
    assert_eq!(h.host_addr(), 3);
    assert_eq!(h.length(), 0x1FF);
    assert!(h.msg_complete());
    assert_eq!(h.raw(), 0x8000_0000 | (0x1FF << 16) | (3 << 8) | 7);
    let h = HeciMsgHdr::new(0, 0, 0, false);
    assert!(!h.msg_complete());
    assert_eq!(h.raw(), 0);
}

#[test]
fn fragments_and_dwords() {
    assert_eq!(fragment_length(100, 0, 8), 28);
    assert_eq!(fragment_length(100, 90, 8), 10);
    let words = pack_dwords(b"abcdefg", 0, 7);
    assert_eq!(words, vec![0x64636261, 0x00676665]);
    let mut buf = [0u8; 9];
    unpack_dwords(&words, 7, &mut buf, 1);
    assert_eq!(&buf, b"\0abcdefg\0");
}

#[test]
fn incoming_routing() {
    assert!(matches!(classify_incoming(0, 0, &[0x08, 1, 2, 0], 8, 1, 2), Incoming::FlowControl));
    match classify_incoming(0, 0, &[0x07, 5, 6, 0], 4, 1, 2) {
        Incoming::DisconnectRequest(m) => assert_eq!(m, vec![0x87, 5, 6, 0]),
        _ => panic!("expected a disconnect request"),
    }
    assert!(matches!(classify_incoming(0, 0, &[0x81, 0, 0, 0], 4, 1, 2), Incoming::OtherHbm));
    assert!(matches!(classify_incoming(1, 2, &[0, 0, 0, 0], 4, 1, 2), Incoming::ForClient));
    assert!(matches!(classify_incoming(3, 2, &[0, 0, 0, 0], 4, 1, 2), Incoming::Unexpected));
    assert_eq!(flow_control_message(4, 9), vec![0x08, 4, 9, 0, 0, 0, 0, 0]);
}

fn exchange(a: HbmAction) -> Vec<u8> {
    match a {
        HbmAction::Exchange(m) => m,
        _ => panic!("expected a message to send"),
    }
}

#[test]
fn hbm_connect_sequence() {
    let (mut c, a) = HbmConnect::start(AMTHI_UUID, 1);
    assert_eq!(exchange(a), vec![0x01, 0, 2, 0]);
    let a = c.on_reply(Ok(&[0x81, 0, 2, 1]));
    assert_eq!(exchange(a), vec![0x04, 0, 0, 0]);
    let mut enum_resp = vec![0x84u8, 0, 0, 0];
    let mut bits = [0u8; 32];
    bits[0] = 0b0000_0110; // clients 1 and 2
    enum_resp.extend_from_slice(&bits);
    assert_eq!(exchange(c.on_reply(Ok(&enum_resp))), vec![0x05, 1, 0, 0]);
    // client 1 has another UUID
    let mut prop = vec![0x85u8, 1, 0, 0];
    prop.extend_from_slice(&[0xEE; 16]);
    prop.extend_from_slice(&[1, 1, 0, 0, 0, 2, 0, 0]);
    assert_eq!(exchange(c.on_reply(Ok(&prop))), vec![0x05, 2, 0, 0]);
    let mut prop = vec![0x85u8, 2, 0, 0];
    prop.extend_from_slice(&AMTHI_UUID);
    prop.extend_from_slice(&[1, 1, 0, 0, 0x00, 0x10, 0, 0]);
    assert_eq!(exchange(c.on_reply(Ok(&prop))), vec![0x06, 2, 1, 0]);
    assert_eq!(c.me_addr, 2);
    assert_eq!(c.max_msg_len, 0x1000);
    assert!(matches!(c.on_reply(Ok(&[0x86, 2, 1, 0])), HbmAction::Receive));
    assert!(matches!(c.on_reply(Ok(&[0x08, 2, 1, 0, 0, 0, 0, 0])), HbmAction::Finished(Ok(()))));
    assert!(c.stage == HbmConnectStage::Done);
}

#[test]
fn hbm_connect_failures() {
    let (mut c, _) = HbmConnect::start(AMTHI_UUID, 1);
    assert!(matches!(c.on_reply(Ok(&[0x81, 0, 2, 0])), HbmAction::Finished(Err(Error::Unsupported))));
    let (mut c, _) = HbmConnect::start(AMTHI_UUID, 1);
    assert!(matches!(c.on_reply(Ok(&[0x81])), HbmAction::Finished(Err(Error::ProtocolError))));
    let (mut c, _) = HbmConnect::start(AMTHI_UUID, 1);
    assert!(matches!(c.on_reply(Err(Error::Timeout)), HbmAction::Finished(Err(Error::Timeout))));
    let (mut c, _) = HbmConnect::start(AMTHI_UUID, 1);
    exchange(c.on_reply(Ok(&[0x81, 0, 2, 1])));
    let mut enum_resp = vec![0x84u8, 0, 0, 0];
    enum_resp.extend_from_slice(&[0u8; 32]);
    assert!(matches!(c.on_reply(Ok(&enum_resp)), HbmAction::Finished(Err(Error::NotFound))));
}

#[test]
fn pci_config_address() {
    assert_eq!(pci_addr(0, 22, 0, 0x10), 0x8000_B010);
    assert_eq!(pci_addr(1, 0, 0, 0x07), 0x8001_0004);
}

#[test]
fn windows_control_code() {
    assert_eq!(ctl_code(0x8000, 0x801, 0, 3), 0x8000E004);
}

#[test]
fn reassembly_of_two_fragments() {
    let mut r = Reassembly::new();
    let h1 = HeciMsgHdr::new(7, 1, 8, false);
    assert!(matches!(r.on_header(h1, 16), Ok((0, 8))));
    r.on_payload(h1);
    assert!(!r.done);
    let h2 = HeciMsgHdr::new(9, 9, 4, true);
    assert!(matches!(r.on_header(h2, 16), Ok((8, 4))));
    r.on_payload(h2);
    assert!(r.done);
    assert_eq!(r.finish(), (12, 7, 1));
    let h3 = HeciMsgHdr::new(7, 1, 8, true);
    assert!(matches!(r.on_header(h3, 16), Err(Error::BufferTooSmall)));
}

#[test]
fn reassembly_timeouts() {
    let mut r = Reassembly::new();
    assert!(matches!(r.on_timeout(), Err(Error::Timeout)));
    let h = HeciMsgHdr::new(2, 3, 5, false);
    r.on_header(h, 64).unwrap();
    r.on_payload(h);
    assert!(matches!(r.on_timeout(), Ok((5, 2, 3))));
    assert!(is_last_fragment(10, 6, 4));
    assert!(!is_last_fragment(10, 0, 4));
}

#[test]
fn delivery_to_caller_buffer() {
    let mut buf = [9u8; 4];
    assert!(matches!(deliver(b"abcdef", 3, &mut buf), Ok(3)));
    assert_eq!(&buf, b"abc\x09");
    assert!(matches!(deliver(b"abcdef", 5, &mut buf), Err(Error::BufferTooSmall)));
    assert_eq!(&buf, b"abc\x09");
}
