//! LME session: the APF protocol state machine that tunnels TCP to the AMT
//! web service over the HECI LME client. The HECI transport itself stays with
//! the caller: every message the session wants sent is handed back in `out`.

pub mod apf;

use vstd::prelude::*;
use vstd::string::StringSliceAdditionalSpecFns;
use crate::error::{Error, Result};
use crate::str_util::push_bytes;
use self::apf::{
    be32, be_bytes, read_be32, APF_AMT_HTTP_PORT, APF_CHANNEL_CLOSE, APF_CHANNEL_DATA, APF_CHANNEL_OPEN,
    APF_CHANNEL_OPEN_CONFIRMATION, APF_CHANNEL_OPEN_FAILURE, APF_CHANNEL_WINDOW_ADJUST,
    APF_GLOBAL_REQUEST, APF_KEEPALIVE_REPLY, APF_KEEPALIVE_REQUEST, APF_PROTOCOLVERSION,
    APF_REQUEST_SUCCESS, APF_SERVICE_ACCEPT, APF_SERVICE_REQUEST, LME_RX_WINDOW_SIZE,
};

verus! {

pub const LME_RX_BUF_SIZE: usize = 4096;
/// Largest APF channel-data message (header and payload).
pub const LME_TX_BUF_SIZE: usize = 2048;
/// Messages read while waiting for the ME's side of the APF handshake.
pub const HANDSHAKE_READS: u32 = 40;
/// Messages read while waiting for a channel open to be answered.
pub const CHANNEL_OPEN_READS: u32 = 30;
/// Messages read while collecting one response from the channel.
pub const RECEIVE_READS: u32 = 100;

pub struct LmeSession {
    pub our_channel: u32,
    pub amt_channel: u32,
    /// The channel is open (`amt_channel == 0` is a valid channel id).
    pub channel_active: bool,
    pub tx_window: u32,
    pub rx_buf: [u8; 4096],
    pub rx_len: u32,
    /// The ME has sent tcpip-forward for port 16992.
    pub port_forward_ok: bool,
}

fn push_be32(v: &mut Vec<u8>, x: u32)
    ensures
        final(v)@ == old(v)@ + be_bytes(x),
{
    v.push((x / 0x100_0000) as u8);
    v.push(((x / 0x1_0000) % 0x100) as u8);
    v.push(((x / 0x100) % 0x100) as u8);
    v.push((x % 0x100) as u8);
    assert(v@ =~= old(v)@ + be_bytes(x));
}


/// The reply to a SERVICE_REQUEST naming `name_len` bytes: the length, then
/// at most 32 bytes of the name, zero filled to `name_len`.
pub open spec fn service_accept(data: Seq<u8>, name_len: int) -> Seq<u8> {
    seq![APF_SERVICE_ACCEPT] + be_bytes(name_len as u32) + Seq::new(
        name_len as nat,
        |k: int| if k < 32 { data[5 + k] } else { 0u8 },
    )
}

/// The port named by a GLOBAL_REQUEST whose name is `name_len` bytes long
/// (0 when the message is too short to hold one).
pub open spec fn global_request_port(data: Seq<u8>, name_len: int) -> u32 {
    let offset = 6 + name_len;
    if offset + 4 <= data.len() {
        let addr_len = be32(data.subrange(offset, offset + 4)) as int;
        let port_at = offset + 4 + addr_len;
        if port_at + 4 <= data.len() {
            be32(data.subrange(port_at, port_at + 4))
        } else {
            0
        }
    } else {
        0
    }
}

/// `after` is `before` with one more message, `m`, at its end.
pub open spec fn queued(before: Seq<Vec<u8>>, after: Seq<Vec<u8>>, m: Seq<u8>) -> bool {
    &&& after.len() == before.len() + 1
    &&& after.take(before.len() as int) == before
    &&& after.last()@ == m
}

fn enqueue(out: &mut Vec<Vec<u8>>, m: Vec<u8>)
    ensures
        queued(old(out)@, final(out)@, m@),
{
    let ghost mm = m@;
    out.push(m);
    assert(out@.take(old(out)@.len() as int) =~= old(out)@);
}

/// The WINDOW_ADJUST that hands `n` bytes of receive window back on `channel`.
pub open spec fn wa_msg(channel: u32, n: u32) -> Seq<u8> {
    seq![APF_CHANNEL_WINDOW_ADJUST] + be_bytes(channel) + be_bytes(n)
}

/// SERVICE_REQUEST: queue a SERVICE_ACCEPT when the message holds the whole name.
fn service_request_reply(data: &[u8], out: &mut Vec<Vec<u8>>)
    requires
        data@.len() >= 5,
        data@.len() >= 5 + be32(data@.subrange(1, 5)) ==> be32(data@.subrange(1, 5)) <= 59,
    ensures
        data@.len() >= 5 + be32(data@.subrange(1, 5)) ==> queued(old(out)@, final(out)@, service_accept(data@, be32(data@.subrange(1, 5)) as int)),
        data@.len() < 5 + be32(data@.subrange(1, 5)) ==> final(out)@ == old(out)@,
{
    let len = data.len();
    let name_len = read_be32(&data[1..5]) as usize;
    if name_len <= len - 5 {
        let mut accept: Vec<u8> = Vec::new();
        accept.push(APF_SERVICE_ACCEPT);
        push_be32(&mut accept, name_len as u32);
        let ghost head = accept@;
        let mut k: usize = 0;
        while k < name_len
            invariant
                k <= name_len,
                5 + name_len <= data@.len(),
                accept@ == head + Seq::new(k as nat, |q: int| if q < 32 { data@[5 + q] } else { 0u8 }),
            decreases name_len - k,
        {
            if k < 32 {
                accept.push(data[5 + k]);
            } else {
                accept.push(0);
            }
            k += 1;
            assert(accept@ =~= head + Seq::new(k as nat, |q: int| if q < 32 { data@[5 + q] } else { 0u8 }));
        }
        assert(accept@ =~= service_accept(data@, name_len as int));
        enqueue(out, accept);
    }
}

/// GLOBAL_REQUEST: the forwarded port when the message holds the whole name
/// and the want-reply flag; a REQUEST_SUCCESS is queued when a reply is wanted.
fn global_request_reply(data: &[u8], out: &mut Vec<Vec<u8>>) -> (port: Option<u32>)
    requires
        data@.len() >= 5,
    ensures
        ({
            let name_len = be32(data@.subrange(1, 5)) as int;
            if data@.len() >= 6 + name_len {
                let p = global_request_port(data@, name_len);
                &&& port == Some(p)
                &&& if data@[5 + name_len] != 0 {
                    queued(old(out)@, final(out)@, seq![APF_REQUEST_SUCCESS] + be_bytes(p))
                } else {
                    final(out)@ == old(out)@
                }
            } else {
                port is None && final(out)@ == old(out)@
            }
        }),
{
    let len = data.len();
    let name_len = read_be32(&data[1..5]) as usize;
    if len >= 6 && name_len <= len - 6 {
        let want_reply = data[5 + name_len];
        let offset = 6 + name_len;
        let mut fwd_port: u32 = 0;
        if len - offset >= 4 {
            let addr_len = read_be32(&data[offset..offset + 4]) as usize;
            if addr_len <= len - offset - 4 && len - offset - 4 - addr_len >= 4 {
                let port_at = offset + 4 + addr_len;
                fwd_port = read_be32(&data[port_at..port_at + 4]);
            }
        }
        assert(fwd_port == global_request_port(data@, name_len as int));
        if want_reply != 0 {
            let mut success: Vec<u8> = Vec::new();
            success.push(APF_REQUEST_SUCCESS);
            push_be32(&mut success, fwd_port);
            enqueue(out, success);
        }
        Some(fwd_port)
    } else {
        None
    }
}

/// A peer message that `process_apf` accepts (one that the handling would
/// otherwise index past its end or overflow on).
pub open spec fn apf_message_ok(s: LmeSession, data: Seq<u8>) -> bool {
    let len = data.len();
    &&& (len >= 9 && data[0] == APF_CHANNEL_WINDOW_ADJUST) ==> s.tx_window + be32(data.subrange(5, 9))
        <= u32::MAX
    &&& (len >= 9 && data[0] == APF_CHANNEL_DATA && be32(data.subrange(5, 9)) > 0 && s.rx_len + be32(
        data.subrange(5, 9),
    ) <= LME_RX_BUF_SIZE) ==> 9 + be32(data.subrange(5, 9)) <= len
    &&& (len >= 5 && data[0] == APF_SERVICE_REQUEST && len >= 5 + be32(data.subrange(1, 5))) ==> be32(
        data.subrange(1, 5),
    ) <= 59
}

impl LmeSession {
    pub open spec fn wf(&self) -> bool {
        self.rx_len <= LME_RX_BUF_SIZE
    }

    /// A session just connected to the LME client, before the APF handshake.
    pub fn new() -> (s: Self)
        ensures
            s.wf(),
            s.our_channel == 0,
            s.amt_channel == 0,
            !s.channel_active,
            s.tx_window == 0,
            s.rx_len == 0,
            s.rx_buf@ == Seq::new(4096, |i: int| 0u8),
            !s.port_forward_ok,
    {
        let rx_buf = [0u8; 4096];
        assert(rx_buf@ =~= Seq::new(4096, |i: int| 0u8));
        LmeSession {
            our_channel: 0,
            amt_channel: 0,
            channel_active: false,
            tx_window: 0,
            rx_buf,
            rx_len: 0,
            port_forward_ok: false,
        }
    }

    /// True once ME sent tcpip-forward for port 16992 during APF init.
    pub fn port_forwarding_established(&self) -> (r: bool)
        ensures
            r == self.port_forward_ok,
    {
        self.port_forward_ok
    }

    /// Forget the channel and the handshake, as a full LME reconnect does.
    pub fn reset(&mut self)
        ensures
            final(self).our_channel == 0,
            final(self).amt_channel == 0,
            !final(self).channel_active,
            final(self).tx_window == 0,
            final(self).rx_len == old(self).rx_len,
            final(self).rx_buf == old(self).rx_buf,
            !final(self).port_forward_ok,
    {
        self.channel_active = false;
        self.amt_channel = 0;
        self.tx_window = 0;
        self.our_channel = 0;
        self.port_forward_ok = false;
    }

    /// The APF protocol version message the host sends once after connecting
    /// (version 1.0, 93 bytes).
    pub fn protocol_version_message() -> (m: Vec<u8>)
        ensures
            m@ == seq![APF_PROTOCOLVERSION] + be_bytes(1) + be_bytes(0) + be_bytes(0) + Seq::new(
                80,
                |k: int| 0u8,
            ),
    {
        let mut m: Vec<u8> = Vec::new();
        m.push(APF_PROTOCOLVERSION);
        push_be32(&mut m, 1);
        push_be32(&mut m, 0);
        push_be32(&mut m, 0);
        let ghost head = m@;
        let mut i: usize = 0;
        while i < 80
            invariant
                i <= 80,
                m@ == head + Seq::new(i as nat, |k: int| 0u8),
            decreases 80 - i,
        {
            m.push(0);
            i += 1;
            assert(m@ =~= head + Seq::new(i as nat, |k: int| 0u8));
        }
        m
    }

    /// CHANNEL_DATA: append the payload to the receive buffer when it fits
    /// and queue a WINDOW_ADJUST that returns the window.
    fn on_channel_data(&mut self, data: &[u8], out: &mut Vec<Vec<u8>>)
        requires
            old(self).wf(),
            data@.len() >= 9,
            apf_message_ok(*old(self), data@),
            data@[0] == APF_CHANNEL_DATA,
        ensures
            final(self).wf(),
            ({
                let s = *old(self);
                let t = *final(self);
                let n = be32(data@.subrange(5, 9));
                if n > 0 && s.rx_len + n <= LME_RX_BUF_SIZE {
                    &&& t.rx_len == s.rx_len + n
                    &&& t.rx_buf@ == crate::str_util::splice(
                        s.rx_buf@,
                        s.rx_len as int,
                        data@.subrange(9, 9 + n),
                    )
                    &&& t.our_channel == s.our_channel && t.amt_channel == s.amt_channel
                    &&& t.channel_active == s.channel_active && t.tx_window == s.tx_window
                    &&& t.port_forward_ok == s.port_forward_ok
                    &&& queued(old(out)@, final(out)@, wa_msg(s.amt_channel, n))
                } else {
                    t == s && final(out)@ == old(out)@
                }
            }),
    {
        let data_len = read_be32(&data[5..9]);
        if data_len > 0 && data_len <= 4096 && self.rx_len <= 4096 - data_len {
            let start = self.rx_len as usize;
            let n = data_len as usize;
            let mut j: usize = 0;
            while j < n
                invariant
                    j <= n,
                    start == old(self).rx_len,
                    start + n <= 4096,
                    9 + n <= data@.len(),
                    self.rx_len == old(self).rx_len,
                    self.our_channel == old(self).our_channel,
                    self.amt_channel == old(self).amt_channel,
                    self.channel_active == old(self).channel_active,
                    self.tx_window == old(self).tx_window,
                    self.port_forward_ok == old(self).port_forward_ok,
                    self.rx_buf@ == crate::str_util::splice(
                        old(self).rx_buf@,
                        start as int,
                        data@.subrange(9, 9 + j),
                    ),
                decreases n - j,
            {
                self.rx_buf[start + j] = data[9 + j];
                j += 1;
                assert(self.rx_buf@ =~= crate::str_util::splice(
                    old(self).rx_buf@,
                    start as int,
                    data@.subrange(9, 9 + j),
                ));
            }
            self.rx_len = self.rx_len + data_len;
            let mut wa: Vec<u8> = Vec::new();
            wa.push(APF_CHANNEL_WINDOW_ADJUST);
            push_be32(&mut wa, self.amt_channel);
            push_be32(&mut wa, data_len);
            enqueue(out, wa);
        }
    }

    /// Whether `process_apf` accepts `data` in this state (see `apf_message_ok`).
    pub fn accepts(&self, data: &[u8]) -> (r: bool)
        ensures
            r == apf_message_ok(*self, data@),
    {
        let len = data.len();
        if len >= 9 && data[0] == APF_CHANNEL_WINDOW_ADJUST {
            let w = &data[5..9];
            assert(data@.subrange(5, 9) =~= w@);
            let add = read_be32(w);
            if add > u32::MAX - self.tx_window {
                return false;
            }
        }
        if len >= 9 && data[0] == APF_CHANNEL_DATA {
            let w = &data[5..9];
            assert(data@.subrange(5, 9) =~= w@);
            let n = read_be32(w);
            if n > 0 && (self.rx_len as u64) + (n as u64) <= 4096 && (n as usize) > len - 9 {
                return false;
            }
        }
        if len >= 5 && data[0] == APF_SERVICE_REQUEST {
            let w = &data[1..5];
            assert(data@.subrange(1, 5) =~= w@);
            let n = read_be32(w);
            if (n as usize) <= len - 5 && n > 59 {
                return false;
            }
        }
        true
    }

    /// Process one APF message from the ME, update the session and queue the
    /// replies it calls for in `out`. Returns the message type (0 for an empty message).
    pub fn process_apf(&mut self, data: &[u8], out: &mut Vec<Vec<u8>>) -> (r: u8)
        requires
            old(self).wf(),
            apf_message_ok(*old(self), data@),
        ensures
            final(self).wf(),
            data@.len() == 0 ==> r == 0 && *final(self) == *old(self) && final(out)@ == old(out)@,
            data@.len() > 0 ==> r == data@[0],
            ({
                let len = data@.len();
                let s = *old(self);
                let t = *final(self);
                if len == 0 {
                    true
                } else if data@[0] == APF_CHANNEL_OPEN_CONFIRMATION && len >= 17 {
                    &&& t.our_channel == be32(data@.subrange(1, 5))
                    &&& t.amt_channel == be32(data@.subrange(5, 9))
                    &&& t.tx_window == be32(data@.subrange(9, 13))
                    &&& t.channel_active
                    &&& t.rx_len == s.rx_len && t.rx_buf == s.rx_buf
                    &&& t.port_forward_ok == s.port_forward_ok
                    &&& final(out)@ == old(out)@
                } else if data@[0] == APF_CHANNEL_WINDOW_ADJUST && len >= 9 {
                    &&& t.tx_window == s.tx_window + be32(data@.subrange(5, 9))
                    &&& t.our_channel == s.our_channel && t.amt_channel == s.amt_channel
                    &&& t.channel_active == s.channel_active
                    &&& t.rx_len == s.rx_len && t.rx_buf == s.rx_buf
                    &&& t.port_forward_ok == s.port_forward_ok
                    &&& final(out)@ == old(out)@
                } else if data@[0] == APF_CHANNEL_DATA && len >= 9 && be32(data@.subrange(5, 9)) > 0
                    && s.rx_len + be32(data@.subrange(5, 9)) <= LME_RX_BUF_SIZE {
                    let n = be32(data@.subrange(5, 9));
                    &&& t.rx_len == s.rx_len + n
                    &&& t.rx_buf@ == crate::str_util::splice(
                        s.rx_buf@,
                        s.rx_len as int,
                        data@.subrange(9, 9 + n),
                    )
                    &&& t.our_channel == s.our_channel && t.amt_channel == s.amt_channel
                    &&& t.channel_active == s.channel_active && t.tx_window == s.tx_window
                    &&& t.port_forward_ok == s.port_forward_ok
                    &&& queued(old(out)@, final(out)@, wa_msg(s.amt_channel, n))
                } else if data@[0] == APF_CHANNEL_CLOSE {
                    &&& !t.channel_active && t.amt_channel == 0 && t.tx_window == 0
                    &&& t.our_channel == s.our_channel
                    &&& t.rx_len == s.rx_len && t.rx_buf == s.rx_buf
                    &&& t.port_forward_ok == s.port_forward_ok
                    &&& if s.channel_active {
                        queued(old(out)@, final(out)@, seq![APF_CHANNEL_CLOSE] + be_bytes(s.amt_channel))
                    } else {
                        final(out)@ == old(out)@
                    }
                } else if data@[0] == APF_SERVICE_REQUEST && len >= 5 && len >= 5 + be32(
                    data@.subrange(1, 5),
                ) {
                    &&& t == s
                    &&& queued(old(out)@, final(out)@, service_accept(data@, be32(data@.subrange(1, 5)) as int))
                } else if data@[0] == APF_GLOBAL_REQUEST && len >= 5 && len >= 6 + be32(
                    data@.subrange(1, 5),
                ) {
                    let name_len = be32(data@.subrange(1, 5)) as int;
                    let port = global_request_port(data@, name_len);
                    &&& t.our_channel == s.our_channel && t.amt_channel == s.amt_channel
                    &&& t.channel_active == s.channel_active && t.tx_window == s.tx_window
                    &&& t.rx_len == s.rx_len && t.rx_buf == s.rx_buf
                    &&& t.port_forward_ok == (s.port_forward_ok || port == APF_AMT_HTTP_PORT)
                    &&& if data@[5 + name_len] != 0 {
                        queued(old(out)@, final(out)@, seq![APF_REQUEST_SUCCESS] + be_bytes(port))
                    } else {
                        final(out)@ == old(out)@
                    }
                } else if data@[0] == APF_KEEPALIVE_REQUEST && len >= 5 {
                    &&& t == s
                    &&& queued(old(out)@, final(out)@, seq![APF_KEEPALIVE_REPLY] + data@.subrange(1, 5))
                } else {
                    t == s && final(out)@ == old(out)@
                }
            }),
    {
        if data.len() == 0 {
            return 0;
        }
        let msg_type = data[0];
        let len = data.len();
        if msg_type == APF_CHANNEL_OPEN_CONFIRMATION {
            if len >= 17 {
                self.our_channel = read_be32(&data[1..5]);
                self.amt_channel = read_be32(&data[5..9]);
                self.tx_window = read_be32(&data[9..13]);
                self.channel_active = true;
                assert(data@.subrange(1, 5) =~= data@.subrange(1, 5));
            }
        } else if msg_type == APF_CHANNEL_WINDOW_ADJUST {
            if len >= 9 {
                let bytes_to_add = read_be32(&data[5..9]);
                self.tx_window = self.tx_window + bytes_to_add;
            }
        } else if msg_type == APF_CHANNEL_DATA {
            if len >= 9 {
                self.on_channel_data(data, out);
            }
        } else if msg_type == APF_CHANNEL_CLOSE {
            if self.channel_active {
                let mut close_resp: Vec<u8> = Vec::new();
                close_resp.push(APF_CHANNEL_CLOSE);
                push_be32(&mut close_resp, self.amt_channel);
                enqueue(out, close_resp);
            }
            self.channel_active = false;
            self.amt_channel = 0;
            self.tx_window = 0;
        } else if msg_type == APF_SERVICE_REQUEST {
            if len >= 5 {
                service_request_reply(data, out);
            }
        } else if msg_type == APF_GLOBAL_REQUEST {
            if len >= 5 {
                let fwd = global_request_reply(data, out);
                if fwd == Some(APF_AMT_HTTP_PORT) {
                    self.port_forward_ok = true;
                }
            }
        } else if msg_type == APF_KEEPALIVE_REQUEST {
            if len >= 5 {
                let mut reply: Vec<u8> = Vec::new();
                reply.push(APF_KEEPALIVE_REPLY);
                push_bytes(&mut reply, &data[1..5]);
                enqueue(out, reply);
            }
        }
        msg_type
    }

    /// Next channel number and the APF_CHANNEL_OPEN request for
    /// "forwarded-tcpip" to 127.0.0.1:16992.
    pub fn channel_open_message(&mut self) -> (m: Vec<u8>)
        requires
            old(self).wf(),
        ensures
            final(self).wf(),
            final(self).our_channel == (if (old(self).our_channel as int + 1) % 32 == 0 {
                1
            } else {
                (old(self).our_channel as int + 1) % 32
            }),
            final(self).amt_channel == 0,
            final(self).tx_window == 0,
            final(self).channel_active == old(self).channel_active,
            final(self).rx_len == old(self).rx_len,
            final(self).rx_buf == old(self).rx_buf,
            final(self).port_forward_ok == old(self).port_forward_ok,
            m@ == seq![APF_CHANNEL_OPEN] + be_bytes(15) + "forwarded-tcpip".spec_bytes() + be_bytes(
                final(self).our_channel,
            ) + be_bytes(LME_RX_WINDOW_SIZE) + be_bytes(0xFFFF_FFFF) + be_bytes(9)
                + "127.0.0.1".spec_bytes() + be_bytes(APF_AMT_HTTP_PORT) + be_bytes(9)
                + "127.0.0.1".spec_bytes() + be_bytes(16992),
    {
        self.our_channel = ((self.our_channel as u64 + 1) % 32) as u32;
        if self.our_channel == 0 {
            self.our_channel = 1;
        }
        self.amt_channel = 0;
        self.tx_window = 0;
        let mut msg: Vec<u8> = Vec::new();
        msg.push(APF_CHANNEL_OPEN);
        push_be32(&mut msg, 15);
        push_bytes(&mut msg, "forwarded-tcpip".as_bytes());
        push_be32(&mut msg, self.our_channel);
        push_be32(&mut msg, LME_RX_WINDOW_SIZE);
        push_be32(&mut msg, 0xFFFF_FFFF);
        push_be32(&mut msg, 9);
        push_bytes(&mut msg, "127.0.0.1".as_bytes());
        push_be32(&mut msg, APF_AMT_HTTP_PORT);
        push_be32(&mut msg, 9);
        push_bytes(&mut msg, "127.0.0.1".as_bytes());
        push_be32(&mut msg, 16992);
        msg
    }

    /// The APF_CHANNEL_DATA message that sends `data` on the open channel.
    pub fn channel_data_message(&self, data: &[u8]) -> (r: Result<Vec<u8>>)
        ensures
            data@.len() + 9 > LME_TX_BUF_SIZE ==> r == Err::<Vec<u8>, Error>(Error::BufferTooSmall),
            data@.len() + 9 <= LME_TX_BUF_SIZE ==> (r matches Ok(m) && m@ == seq![APF_CHANNEL_DATA]
                + be_bytes(self.amt_channel) + be_bytes(data@.len() as u32) + data@),
    {
        if data.len() > LME_TX_BUF_SIZE - 9 {
            return Err(Error::BufferTooSmall);
        }
        let mut m: Vec<u8> = Vec::new();
        m.push(APF_CHANNEL_DATA);
        push_be32(&mut m, self.amt_channel);
        push_be32(&mut m, data.len() as u32);
        push_bytes(&mut m, data);
        Ok(m)
    }

    /// Close the APF channel (not HECI). Safe to call multiple times. Returns
    /// the close request to send when a channel was open.
    pub fn close_channel(&mut self) -> (m: Option<Vec<u8>>)
        requires
            old(self).wf(),
        ensures
            final(self).wf(),
            !final(self).channel_active,
            old(self).channel_active ==> {
                &&& m matches Some(msg) && msg@ == seq![APF_CHANNEL_CLOSE] + be_bytes(old(self).amt_channel)
                &&& final(self).amt_channel == 0
                &&& final(self).tx_window == 0
            },
            !old(self).channel_active ==> m is None && *final(self) == *old(self),
            final(self).our_channel == old(self).our_channel,
            final(self).rx_len == old(self).rx_len,
            final(self).rx_buf == old(self).rx_buf,
            final(self).port_forward_ok == old(self).port_forward_ok,
    {
        if self.channel_active {
            let mut close_msg: Vec<u8> = Vec::new();
            close_msg.push(APF_CHANNEL_CLOSE);
            push_be32(&mut close_msg, self.amt_channel);
            self.channel_active = false;
            self.amt_channel = 0;
            self.tx_window = 0;
            Some(close_msg)
        } else {
            None
        }
    }

    /// The received channel data so far.
    pub fn received(&self) -> (r: Vec<u8>)
        requires
            self.wf(),
        ensures
            r@ == self.rx_buf@.take(self.rx_len as int),
    {
        let mut r: Vec<u8> = Vec::new();
        let n = self.rx_len as usize;
        let mut i: usize = 0;
        while i < n
            invariant
                i <= n,
                n <= 4096,
                r@ == self.rx_buf@.take(i as int),
            decreases n - i,
        {
            r.push(self.rx_buf[i]);
            i += 1;
            assert(r@ =~= self.rx_buf@.take(i as int));
        }
        r
    }

    /// Start collecting a new response.
    pub fn clear_received(&mut self)
        ensures
            final(self).rx_len == 0,
            final(self).rx_buf == old(self).rx_buf,
            final(self).our_channel == old(self).our_channel,
            final(self).amt_channel == old(self).amt_channel,
            final(self).channel_active == old(self).channel_active,
            final(self).tx_window == old(self).tx_window,
            final(self).port_forward_ok == old(self).port_forward_ok,
    {
        self.rx_len = 0;
    }

    /// Decision after one receive attempt while collecting channel data:
    /// `event` is the type of the message processed, or `None` when the read failed.
    pub fn receive_step(&self, event: Option<u8>) -> (r: Option<Result<()>>)
        ensures
            match event {
                Some(t) => if t == APF_CHANNEL_CLOSE {
                    if self.rx_len > 0 {
                        r == Some(Ok::<(), Error>(()))
                    } else {
                        r == Some(Err::<(), Error>(Error::Aborted))
                    }
                } else {
                    r is None
                },
                None => if self.rx_len > 0 {
                    r == Some(Ok::<(), Error>(()))
                } else {
                    r == Some(Err::<(), Error>(Error::Timeout))
                },
            },
    {
        match event {
            Some(t) => {
                if t == APF_CHANNEL_CLOSE {
                    if self.rx_len > 0 {
                        Some(Ok(()))
                    } else {
                        Some(Err(Error::Aborted))
                    }
                } else {
                    None
                }
            },
            None => {
                if self.rx_len > 0 {
                    Some(Ok(()))
                } else {
                    Some(Err(Error::Timeout))
                }
            },
        }
    }

    /// Outcome when the receive attempts are used up.
    pub fn receive_exhausted(&self) -> (r: Result<()>)
        ensures
            self.rx_len > 0 ==> r is Ok,
            self.rx_len == 0 ==> r == Err::<(), Error>(Error::Timeout),
    {
        if self.rx_len > 0 {
            Ok(())
        } else {
            Err(Error::Timeout)
        }
    }
}

/// Decision after one message while waiting for the channel open to be
/// answered: `Some` ends the wait.
pub fn channel_open_step(msg_type: u8) -> (r: Option<Result<()>>)
    ensures
        msg_type == APF_CHANNEL_OPEN_CONFIRMATION ==> r == Some(Ok::<(), Error>(())),
        msg_type == APF_CHANNEL_OPEN_FAILURE ==> r == Some(Err::<(), Error>(Error::DeviceError)),
        msg_type != APF_CHANNEL_OPEN_CONFIRMATION && msg_type != APF_CHANNEL_OPEN_FAILURE ==> r is None,
{
    if msg_type == APF_CHANNEL_OPEN_CONFIRMATION {
        Some(Ok(()))
    } else if msg_type == APF_CHANNEL_OPEN_FAILURE {
        Some(Err(Error::DeviceError))
    } else {
        None
    }
}

/// Progress of the APF handshake: the host has sent its protocol version and
/// waits for the ME's version, service request and tcpip-forward request.
pub struct HandshakeProgress {
    pub protocol_version_ok: bool,
    pub timeout_count: u32,
}

impl HandshakeProgress {
    pub fn new() -> (h: Self)
        ensures
            !h.protocol_version_ok,
            h.timeout_count == 0,
    {
        HandshakeProgress { protocol_version_ok: false, timeout_count: 0 }
    }

    /// A message of type `msg_type` was processed; `port_forward` tells whether the
    /// session has port forwarding now. Returns true when the wait is over.
    pub fn on_message(&mut self, msg_type: u8, port_forward: bool) -> (done: bool)
        ensures
            final(self).timeout_count == 0,
            final(self).protocol_version_ok == (old(self).protocol_version_ok || msg_type
                == APF_PROTOCOLVERSION),
            done == port_forward,
    {
        self.timeout_count = 0;
        if msg_type == APF_PROTOCOLVERSION {
            self.protocol_version_ok = true;
        }
        port_forward
    }

    /// A read failed. Returns true when the wait is over: port forwarding is
    /// up, or the ME's version came and this is the second failure in a row.
    pub fn on_timeout(&mut self, port_forward: bool) -> (done: bool)
        requires
            old(self).timeout_count < u32::MAX,
        ensures
            final(self).timeout_count == old(self).timeout_count + 1,
            final(self).protocol_version_ok == old(self).protocol_version_ok,
            done == (port_forward || (old(self).protocol_version_ok && old(self).timeout_count + 1
                >= 2)),
    {
        self.timeout_count = self.timeout_count + 1;
        if port_forward {
            return true;
        }
        self.protocol_version_ok && self.timeout_count >= 2
    }

    /// The handshake result: it fails only when the ME never sent its version.
    pub fn finish(&self) -> (r: Result<()>)
        ensures
            self.protocol_version_ok ==> r is Ok,
            !self.protocol_version_ok ==> r == Err::<(), Error>(Error::Unsupported),
    {
        if self.protocol_version_ok {
            Ok(())
        } else {
            Err(Error::Unsupported)
        }
    }
}


/// What the ME sends on the channel is what the session collects: a
/// CHANNEL_DATA payload stored at the end of the received bytes (as
/// `process_apf` stores it) extends `received()` by exactly that payload.
pub proof fn lemma_received_extends(s: LmeSession, t: LmeSession, payload: Seq<u8>)
    requires
        s.rx_len + payload.len() <= LME_RX_BUF_SIZE,
        t.rx_len == s.rx_len + payload.len(),
        t.rx_buf@ == crate::str_util::splice(s.rx_buf@, s.rx_len as int, payload),
    ensures
        t.rx_buf@.take(t.rx_len as int) == s.rx_buf@.take(s.rx_len as int) + payload,
{
    assert(t.rx_buf@.take(t.rx_len as int) =~= s.rx_buf@.take(s.rx_len as int) + payload);
}


/// The WINDOW_ADJUST returned for channel data is addressed to `channel` and
/// hands back `n` bytes: nine bytes, the type, then the recipient channel
/// and the byte count, each read back big-endian.
pub proof fn lemma_window_adjust_fields(channel: u32, n: u32)
    ensures
        wa_msg(channel, n).len() == 9,
        wa_msg(channel, n)[0] == APF_CHANNEL_WINDOW_ADJUST,
        be32(wa_msg(channel, n).subrange(1, 5)) == channel,
        be32(wa_msg(channel, n).subrange(5, 9)) == n,
{
    self::apf::lemma_be32_roundtrip(channel);
    self::apf::lemma_be32_roundtrip(n);
    assert(wa_msg(channel, n).subrange(1, 5) =~= be_bytes(channel));
    assert(wa_msg(channel, n).subrange(5, 9) =~= be_bytes(n));
}

} // verus!
