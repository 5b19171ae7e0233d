use uefi_amt_provision::error::Error;
use uefi_amt_provision::lme::apf::{read_be32, write_be32};
use uefi_amt_provision::lme::{channel_open_step, HandshakeProgress, LmeSession};

fn be(v: u32) -> [u8; 4] {
    v.to_be_bytes()
}

#[test]
fn be32_roundtrip() {
    let mut buf = [0u8; 4];
    write_be32(&mut buf, 0x01020304);
    assert_eq!(buf, [1, 2, 3, 4]);
    assert_eq!(read_be32(&buf), 0x01020304);
}

#[test]
fn protocol_version_message_layout() {
    let m = LmeSession::protocol_version_message();
    assert_eq!(m.len(), 93);
    assert_eq!(&m[..13], &[192, 0, 0, 0, 1, 0, 0, 0, 0, 0, 0, 0, 0]);
}

#[test]
fn channel_open_and_confirmation() {
    let mut s = LmeSession::new();
    let m = s.channel_open_message();
    assert_eq!(s.our_channel, 1);
    assert_eq!(m[0], 90);
    assert_eq!(&m[1..5], &be(15));
    assert_eq!(&m[5..20], b"forwarded-tcpip");
    assert_eq!(&m[20..24], &be(1));
    assert_eq!(&m[24..28], &be(4096));
    assert_eq!(&m[m.len() - 4..], &be(16992));
    // CHANNEL_OPEN_CONFIRMATION: recipient, sender, window, packet size
    let mut conf = vec![91u8];
    conf.extend_from_slice(&be(1));
    conf.extend_from_slice(&be(77));
    conf.extend_from_slice(&be(2048));
    conf.extend_from_slice(&be(0x4000));
    let mut out = Vec::new();
    assert!(s.accepts(&conf));
    let t = s.process_apf(&conf, &mut out);
    assert_eq!(t, 91);
    assert!(matches!(channel_open_step(t), Some(Ok(()))));
    assert!(s.channel_active);
    assert_eq!(s.amt_channel, 77);
    assert_eq!(s.tx_window, 2048);
    assert!(matches!(channel_open_step(92), Some(Err(Error::DeviceError))));
    assert!(channel_open_step(93).is_none());
}

#[test]
fn channel_data_collected_and_window_returned() {
    let mut s = LmeSession::new();
    s.amt_channel = 5;
    let mut msg = vec![94u8];
    msg.extend_from_slice(&be(1));
    msg.extend_from_slice(&be(5));
    msg.extend_from_slice(b"hello");
    let mut out = Vec::new();
    assert!(s.accepts(&msg));
    assert_eq!(s.process_apf(&msg, &mut out), 94);
    assert_eq!(s.received(), b"hello".to_vec());
    assert_eq!(out.len(), 1);
    let mut wa = vec![93u8];
    wa.extend_from_slice(&be(5));
    wa.extend_from_slice(&be(5));
    assert_eq!(out[0], wa);
    assert!(s.receive_step(Some(94)).is_none());
    assert!(matches!(s.receive_step(Some(97)), Some(Ok(()))));
    s.clear_received();
    assert!(matches!(s.receive_step(Some(97)), Some(Err(Error::Aborted))));
    assert!(matches!(s.receive_step(None), Some(Err(Error::Timeout))));
    assert!(matches!(s.receive_exhausted(), Err(Error::Timeout)));
}

#[test]
fn channel_data_claiming_more_than_sent_is_refused() {
    let s = LmeSession::new();
    let mut msg = vec![94u8];
    msg.extend_from_slice(&be(1));
    msg.extend_from_slice(&be(50));
    msg.extend_from_slice(b"short");
    assert!(!s.accepts(&msg));
}

#[test]
fn keepalive_and_global_request_replies() {
    let mut s = LmeSession::new();
    let mut out = Vec::new();
    let mut ka = vec![208u8];
    ka.extend_from_slice(&be(0x11223344));
    assert_eq!(s.process_apf(&ka, &mut out), 208);
    let mut reply = vec![209u8];
    reply.extend_from_slice(&be(0x11223344));
    assert_eq!(out[0], reply);

    let mut gr = vec![80u8];
    gr.extend_from_slice(&be(13));
    gr.extend_from_slice(b"tcpip-forward");
    gr.push(1);
    gr.extend_from_slice(&be(9));
    gr.extend_from_slice(b"127.0.0.1");
    gr.extend_from_slice(&be(16992));
    assert!(s.accepts(&gr));
    assert_eq!(s.process_apf(&gr, &mut out), 80);
    assert!(s.port_forwarding_established());
    let mut success = vec![81u8];
    success.extend_from_slice(&be(16992));
    assert_eq!(out[1], success);
}

#[test]
fn service_request_accepted() {
    let mut s = LmeSession::new();
    let mut out = Vec::new();
    let mut sr = vec![5u8];
    sr.extend_from_slice(&be(18));
    sr.extend_from_slice(b"pfwd@amt.intel.com");
    assert!(s.accepts(&sr));
    assert_eq!(s.process_apf(&sr, &mut out), 5);
    let mut acc = vec![6u8];
    acc.extend_from_slice(&be(18));
    acc.extend_from_slice(b"pfwd@amt.intel.com");
    assert_eq!(out[0], acc);
}

#[test]
fn data_message_and_close() {
    let mut s = LmeSession::new();
    s.amt_channel = 9;
    s.channel_active = true;
    let m = s.channel_data_message(b"GET").unwrap();
    assert_eq!(m, vec![94, 0, 0, 0, 9, 0, 0, 0, 3, b'G', b'E', b'T']);
    assert!(matches!(s.channel_data_message(&vec![0u8; 2040]), Err(Error::BufferTooSmall)));
    assert_eq!(s.close_channel(), Some(vec![97, 0, 0, 0, 9]));
    assert!(!s.channel_active);
    assert_eq!(s.close_channel(), None);
}

#[test]
fn handshake_progress() {
    let mut h = HandshakeProgress::new();
    assert!(!h.on_message(192, false));
    assert!(!h.on_timeout(false));
    assert!(h.on_timeout(false));
    assert!(h.finish().is_ok());
    let mut h = HandshakeProgress::new();
    assert!(!h.on_timeout(false));
    assert!(!h.on_timeout(false));
    assert!(matches!(h.finish(), Err(Error::Unsupported)));
    let mut h = HandshakeProgress::new();
    assert!(h.on_message(80, true));
}

#[test]
fn channel_data_accumulates_in_order() {
    let mut s = LmeSession::new();
    let mut out = Vec::new();
    for part in [&b"HTTP/1.1 200 "[..], &b"OK\r\n\r\n"[..]] {
        let mut msg = vec![94u8];
        msg.extend_from_slice(&be(1));
        msg.extend_from_slice(&be(part.len() as u32));
        msg.extend_from_slice(part);
        assert!(s.accepts(&msg));
        s.process_apf(&msg, &mut out);
    }
    assert_eq!(s.received(), b"HTTP/1.1 200 OK\r\n\r\n".to_vec());
    assert_eq!(out.len(), 2);
}
