//! Host Embedded Controller Interface: register layout, host bus messages and
//! the decisions of the message transport (fragmentation, reassembly and the
//! routing of incoming messages).

pub mod hbm;
pub mod regs;

use vstd::prelude::*;
use crate::str_util::splice;
use crate::error::{Error, Result};
use self::hbm::{HBM_CMD_FLOW_CONTROL, HBM_CMD_CLIENT_DISCONNECT_REQ, HBM_CMD_CLIENT_DISCONNECT_RESP};
use self::regs::HeciMsgHdr;

verus! {

/// How a message read from the HECI is handled by the client connected at a
/// given address pair.
pub enum Incoming {
    /// An HBM flow-control credit: skipped.
    FlowControl,
    /// The ME asks to disconnect a client: answer with this response.
    DisconnectRequest(Vec<u8>),
    /// Any other HBM message: skipped.
    OtherHbm,
    /// A message for the connected client.
    ForClient,
    /// A message for some other client: skipped.
    Unexpected,
}

/// Routes a message of `len` bytes read from `(msg_me, msg_host)`; `data` holds its bytes.
pub fn classify_incoming(msg_me: u8, msg_host: u8, data: &[u8], len: u32, me_addr: u8, host_addr: u8) -> (r:
    Incoming)
    requires
        data@.len() >= 4,
    ensures
        msg_me == 0 && msg_host == 0 ==> if data@[0] == HBM_CMD_FLOW_CONTROL {
            r is FlowControl
        } else if data@[0] == HBM_CMD_CLIENT_DISCONNECT_REQ && len >= 4 {
            r matches Incoming::DisconnectRequest(m) && m@ == seq![
                HBM_CMD_CLIENT_DISCONNECT_RESP,
                data@[1],
                data@[2],
                0u8,
            ]
        } else {
            r is OtherHbm
        },
        !(msg_me == 0 && msg_host == 0) ==> if msg_me == me_addr && msg_host == host_addr {
            r is ForClient
        } else {
            r is Unexpected
        },
{
    if msg_me == 0 && msg_host == 0 {
        if data[0] == HBM_CMD_FLOW_CONTROL {
            Incoming::FlowControl
        } else if data[0] == HBM_CMD_CLIENT_DISCONNECT_REQ && len >= 4 {
            let mut m: Vec<u8> = Vec::new();
            m.push(HBM_CMD_CLIENT_DISCONNECT_RESP);
            m.push(data[1]);
            m.push(data[2]);
            m.push(0);
            assert(m@ =~= seq![HBM_CMD_CLIENT_DISCONNECT_RESP, data@[1], data@[2], 0u8]);
            Incoming::DisconnectRequest(m)
        } else {
            Incoming::OtherHbm
        }
    } else if msg_me == me_addr && msg_host == host_addr {
        Incoming::ForClient
    } else {
        Incoming::Unexpected
    }
}

/// Payload bytes of the next fragment: what remains of `len` after `sent`,
/// limited by the `empty` slots of the host buffer (one slot holds the header).
pub fn fragment_length(len: u32, sent: u32, empty: u32) -> (r: u32)
    requires
        sent < len,
        1 <= empty <= 256,
    ensures
        r == if len - sent <= 4 * (empty - 1) { len - sent } else { 4 * (empty - 1) },
{
    let max_payload = (empty - 1) * 4;
    let remaining = len - sent;
    if remaining < max_payload {
        remaining
    } else {
        max_payload
    }
}

/// Byte `k` of `b`, zero past its end.
pub open spec fn byte_or_zero(b: Seq<u8>, k: int) -> u8 {
    if 0 <= k < b.len() {
        b[k]
    } else {
        0
    }
}

/// Dword `i` of `b` in little-endian order, zero padded.
pub open spec fn dword_of(b: Seq<u8>, i: int) -> u32 {
    (byte_or_zero(b, 4 * i) as int + 0x100 * byte_or_zero(b, 4 * i + 1) as int + 0x1_0000
        * byte_or_zero(b, 4 * i + 2) as int + 0x100_0000 * byte_or_zero(b, 4 * i + 3) as int) as u32
}

/// Byte `j` (0..4) of a dword in little-endian order.
pub open spec fn dword_byte(w: u32, j: int) -> u8 {
    if j == 0 {
        (w % 0x100) as u8
    } else if j == 1 {
        ((w / 0x100) % 0x100) as u8
    } else if j == 2 {
        ((w / 0x1_0000) % 0x100) as u8
    } else {
        ((w / 0x100_0000) % 0x100) as u8
    }
}

/// The first `len` bytes carried by `words`.
pub open spec fn dword_bytes(words: Seq<u32>, len: int) -> Seq<u8> {
    Seq::new(len as nat, |k: int| dword_byte(words[k / 4], k % 4))
}

/// The payload dwords written to the host buffer for `data[start..start+len]`.
pub fn pack_dwords(data: &[u8], start: usize, len: usize) -> (r: Vec<u32>)
    requires
        start + len <= data.len(),
    ensures
        r@.len() == (len + 3) / 4,
        forall|i: int| 0 <= i < r@.len() ==> r@[i] == dword_of(data@.subrange(start as int, start + len), i),
{
    let ghost seg = data@.subrange(start as int, start + len);
    let dwords = len / 4 + if len % 4 != 0 { 1 } else { 0 };
    let mut r: Vec<u32> = Vec::new();
    let mut i: usize = 0;
    while i < dwords
        invariant
            dwords == (len + 3) / 4,
            i <= dwords,
            start + len <= data.len(),
            seg == data@.subrange(start as int, start + len),
            r@.len() == i,
            forall|t: int| 0 <= t < i ==> r@[t] == dword_of(seg, t),
        decreases dwords - i,
    {
        let base = start + 4 * i;
        let b0 = if 4 * i < len { data[base] } else { 0 };
        let b1 = if 4 * i + 1 < len { data[base + 1] } else { 0 };
        let b2 = if 4 * i + 2 < len { data[base + 2] } else { 0 };
        let b3 = if 4 * i + 3 < len { data[base + 3] } else { 0 };
        let w = (b0 as u32) + (b1 as u32) * 0x100 + (b2 as u32) * 0x1_0000 + (b3 as u32) * 0x100_0000;
        r.push(w);
        i += 1;
    }
    r
}

/// Writes the first `len` bytes carried by `words` to `buf` at `at`.
pub fn unpack_dwords(words: &[u32], len: usize, buf: &mut [u8], at: usize)
    requires
        len <= 4 * words@.len(),
        at + len <= old(buf).len(),
    ensures
        final(buf)@ == splice(old(buf)@, at as int, dword_bytes(words@, len as int)),
{
    let mut k: usize = 0;
    while k < len
        invariant
            k <= len,
            len <= 4 * words@.len(),
            at + len <= buf.len(),
            buf@.len() == old(buf)@.len(),
            buf@ == splice(old(buf)@, at as int, dword_bytes(words@, len as int).take(k as int)),
        decreases len - k,
    {
        let w = words[k / 4];
        let j = k % 4;
        let b = if j == 0 {
            (w % 0x100) as u8
        } else if j == 1 {
            ((w / 0x100) % 0x100) as u8
        } else if j == 2 {
            ((w / 0x1_0000) % 0x100) as u8
        } else {
            ((w / 0x100_0000) % 0x100) as u8
        };
        buf[at + k] = b;
        k += 1;
        assert(buf@ =~= splice(old(buf)@, at as int, dword_bytes(words@, len as int).take(k as int)));
    }
    assert(dword_bytes(words@, len as int).take(len as int) =~= dword_bytes(words@, len as int));
}

proof fn lemma_dword_byte_of_le(b0: u8, b1: u8, b2: u8, b3: u8)
    ensures
        dword_byte((b0 as int + 0x100 * b1 as int + 0x1_0000 * b2 as int + 0x100_0000 * b3 as int) as u32, 0) == b0,
        dword_byte((b0 as int + 0x100 * b1 as int + 0x1_0000 * b2 as int + 0x100_0000 * b3 as int) as u32, 1) == b1,
        dword_byte((b0 as int + 0x100 * b1 as int + 0x1_0000 * b2 as int + 0x100_0000 * b3 as int) as u32, 2) == b2,
        dword_byte((b0 as int + 0x100 * b1 as int + 0x1_0000 * b2 as int + 0x100_0000 * b3 as int) as u32, 3) == b3,
{
    let v = b0 as int + 0x100 * b1 as int + 0x1_0000 * b2 as int + 0x100_0000 * b3 as int;
    assert(v < 0x1_0000_0000);
    assert(v % 0x100 == b0 as int);
    assert(v / 0x100 == b1 as int + 0x100 * b2 as int + 0x1_0000 * b3 as int);
    assert(v / 0x1_0000 == b2 as int + 0x100 * b3 as int);
    assert(v / 0x100_0000 == b3 as int);
}

/// What the host packs into dwords is what the reader unpacks: the fragment
/// payload survives the trip through the circular buffer unchanged.
pub proof fn lemma_dwords_roundtrip(seg: Seq<u8>)
    ensures
        dword_bytes(Seq::new(((seg.len() + 3) / 4) as nat, |i: int| dword_of(seg, i)), seg.len() as int)
            == seg,
{
    let words = Seq::new(((seg.len() + 3) / 4) as nat, |i: int| dword_of(seg, i));
    assert forall|k: int| 0 <= k < seg.len() implies #[trigger] dword_bytes(words, seg.len() as int)[k] == seg[k] by {
        let i = k / 4;
        let j = k % 4;
        assert(4 * i + j == k);
        lemma_dword_byte_of_le(
            byte_or_zero(seg, 4 * i),
            byte_or_zero(seg, 4 * i + 1),
            byte_or_zero(seg, 4 * i + 2),
            byte_or_zero(seg, 4 * i + 3),
        );
    }
    assert(dword_bytes(words, seg.len() as int) =~= seg);
}


/// A Windows device I/O control code from its parts.
pub fn ctl_code(device_type: u32, function: u32, method: u32, access: u32) -> (r: u32)
    ensures
        r == ((device_type << 16u32) | (access << 14u32) | (function << 2u32) | method),
{
    (device_type << 16u32) | (access << 14u32) | (function << 2u32) | method
}


/// Reassembly of one message from the fragments read off the ME circular
/// buffer: the address pair comes from the first fragment, the lengths add
/// up, and the fragment flagged complete ends the message.
pub struct Reassembly {
    /// Bytes of the message stored so far.
    pub total_read: u32,
    pub first_fragment: bool,
    pub me_addr: u8,
    pub host_addr: u8,
    pub done: bool,
}

impl Reassembly {
    pub fn new() -> (r: Self)
        ensures
            r.total_read == 0,
            r.first_fragment,
            !r.done,
    {
        Reassembly { total_read: 0, first_fragment: true, me_addr: 0, host_addr: 0, done: false }
    }

    /// A fragment header was read for a message buffer of `capacity` bytes.
    /// Answers where its payload goes: at `total_read`, for `length` bytes;
    /// when the message would overflow the buffer it fails with
    /// `BufferTooSmall` (the caller drains the fragment's dwords).
    pub fn on_header(&mut self, hdr: HeciMsgHdr, capacity: u32) -> (r: Result<(u32, u32)>)
        requires
            old(self).total_read <= capacity,
        ensures
            old(self).first_fragment ==> final(self).me_addr == hdr.0 % 0x100 && final(self).host_addr
                == (hdr.0 / 0x100) % 0x100 && !final(self).first_fragment,
            !old(self).first_fragment ==> final(self).me_addr == old(self).me_addr && final(self).host_addr
                == old(self).host_addr && !final(self).first_fragment,
            final(self).total_read == old(self).total_read,
            final(self).done == old(self).done,
            ({
                let len = (hdr.0 / 0x1_0000) % 0x200;
                if old(self).total_read + len > capacity {
                    r == Err::<(u32, u32), Error>(Error::BufferTooSmall)
                } else {
                    r == Ok::<(u32, u32), Error>((old(self).total_read, len as u32))
                }
            }),
    {
        if self.first_fragment {
            self.me_addr = hdr.me_addr();
            self.host_addr = hdr.host_addr();
            self.first_fragment = false;
        }
        let frag_len = hdr.length() as u32;
        if frag_len > capacity - self.total_read {
            return Err(Error::BufferTooSmall);
        }
        Ok((self.total_read, frag_len))
    }

    /// The payload of the fragment with header `hdr` was stored.
    pub fn on_payload(&mut self, hdr: HeciMsgHdr)
        requires
            old(self).total_read + (hdr.0 / 0x1_0000) % 0x200 <= u32::MAX,
        ensures
            final(self).total_read == old(self).total_read + (hdr.0 / 0x1_0000) % 0x200,
            final(self).done == (old(self).done || hdr.0 >= 0x8000_0000),
            final(self).first_fragment == old(self).first_fragment,
            final(self).me_addr == old(self).me_addr,
            final(self).host_addr == old(self).host_addr,
    {
        self.total_read = self.total_read + hdr.length() as u32;
        if hdr.msg_complete() {
            self.done = true;
        }
    }

    /// No fragment came in time: the message ends with what was read, or the
    /// read fails with `Timeout` when nothing was.
    pub fn on_timeout(&mut self) -> (r: Result<(u32, u8, u8)>)
        ensures
            old(self).total_read > 0 ==> r == Ok::<(u32, u8, u8), Error>(
                (old(self).total_read, old(self).me_addr, old(self).host_addr),
            ) && final(self).done,
            old(self).total_read == 0 ==> r == Err::<(u32, u8, u8), Error>(Error::Timeout),
            final(self).total_read == old(self).total_read,
    {
        if self.total_read > 0 {
            self.done = true;
            Ok((self.total_read, self.me_addr, self.host_addr))
        } else {
            Err(Error::Timeout)
        }
    }

    /// The message, once the complete fragment was stored.
    pub fn finish(&self) -> (r: (u32, u8, u8))
        ensures
            r == (self.total_read, self.me_addr, self.host_addr),
    {
        (self.total_read, self.me_addr, self.host_addr)
    }
}

/// Whether the fragment that carries `frag_len` of the remaining bytes after
/// `sent` of a `len`-byte message is its last.
pub fn is_last_fragment(len: u32, sent: u32, frag_len: u32) -> (r: bool)
    requires
        sent <= len,
        frag_len <= len - sent,
    ensures
        r == (sent + frag_len >= len),
{
    frag_len >= len - sent
}


/// Hands a message read for the connected client (`len` bytes at the start of
/// `msg`) to the caller's `buf`: copied when it fits, `BufferTooSmall` when it
/// does not (and `buf` is left alone).
pub fn deliver(msg: &[u8], len: u32, buf: &mut [u8]) -> (r: Result<u32>)
    requires
        len <= msg@.len(),
    ensures
        len > old(buf)@.len() ==> r == Err::<u32, Error>(Error::BufferTooSmall) && final(buf)@ == old(buf)@,
        len <= old(buf)@.len() ==> r == Ok::<u32, Error>(len) && final(buf)@ == splice(
            old(buf)@,
            0,
            msg@.take(len as int),
        ),
{
    let n = len as usize;
    if n > buf.len() {
        return Err(Error::BufferTooSmall);
    }
    let mut i: usize = 0;
    while i < n
        invariant
            i <= n,
            n == len,
            n <= msg@.len(),
            n <= buf@.len(),
            buf@.len() == old(buf)@.len(),
            buf@ == splice(old(buf)@, 0, msg@.take(i as int)),
        decreases n - i,
    {
        buf[i] = msg[i];
        i += 1;
        assert(buf@ =~= splice(old(buf)@, 0, msg@.take(i as int)));
    }
    Ok(len)
}

} // verus!
