//! APF (AMT Port Forwarding) message codes and big-endian field access.

use vstd::prelude::*;

verus! {

// APF message type codes
pub const APF_SERVICE_REQUEST: u8 = 5;
pub const APF_SERVICE_ACCEPT: u8 = 6;
pub const APF_GLOBAL_REQUEST: u8 = 80;
pub const APF_REQUEST_SUCCESS: u8 = 81;
pub const APF_CHANNEL_OPEN: u8 = 90;
pub const APF_CHANNEL_OPEN_CONFIRMATION: u8 = 91;
pub const APF_CHANNEL_OPEN_FAILURE: u8 = 92;
pub const APF_CHANNEL_WINDOW_ADJUST: u8 = 93;
pub const APF_CHANNEL_DATA: u8 = 94;
pub const APF_CHANNEL_CLOSE: u8 = 97;
pub const APF_PROTOCOLVERSION: u8 = 192;
pub const APF_KEEPALIVE_REQUEST: u8 = 208;
pub const APF_KEEPALIVE_REPLY: u8 = 209;

pub const LME_RX_WINDOW_SIZE: u32 = 4096;
pub const APF_AMT_HTTP_PORT: u32 = 16992;

/// LME client UUID {6733A4DB-0476-4E7B-B3AF-BCFC29BEE7A7}, in wire byte order.
pub const LME_UUID: [u8; 16] = [
    0xdb, 0xa4, 0x33, 0x67, 0x76, 0x04, 0x7b, 0x4e, 0xb3, 0xaf, 0xbc, 0xfc, 0x29, 0xbe, 0xe7, 0xa7,
];

/// Big-endian u32 from four bytes.
pub open spec fn be32(b: Seq<u8>) -> u32 {
    (0x100_0000 * b[0] as int + 0x1_0000 * b[1] as int + 0x100 * b[2] as int + b[3] as int) as u32
}

/// The four big-endian bytes of `v`.
pub open spec fn be_bytes(v: u32) -> Seq<u8> {
    seq![(v / 0x100_0000) as u8, ((v / 0x1_0000) % 0x100) as u8, ((v / 0x100) % 0x100) as u8, (v % 0x100) as u8]
}

/// Read a big-endian u32 from a byte slice.
pub fn read_be32(p: &[u8]) -> (r: u32)
    requires
        p@.len() >= 4,
    ensures
        r == be32(p@),
{
    (p[0] as u32) * 0x100_0000 + (p[1] as u32) * 0x1_0000 + (p[2] as u32) * 0x100 + (p[3] as u32)
}

/// Write a big-endian u32 into a byte slice.
pub fn write_be32(buf: &mut [u8], val: u32)
    requires
        old(buf)@.len() >= 4,
    ensures
        final(buf)@ == crate::str_util::splice(old(buf)@, 0, be_bytes(val)),
{
    buf[0] = (val / 0x100_0000) as u8;
    buf[1] = ((val / 0x1_0000) % 0x100) as u8;
    buf[2] = ((val / 0x100) % 0x100) as u8;
    buf[3] = (val % 0x100) as u8;
    assert(buf@ =~= crate::str_util::splice(old(buf)@, 0, be_bytes(val)));
}

/// Reading back what was written gives the value written.
pub proof fn lemma_be32_roundtrip(v: u32)
    ensures
        be32(be_bytes(v)) == v,
{
    let b = be_bytes(v);
    assert(b[0] as int == v as int / 0x100_0000);
    assert(v as int == 0x100_0000 * (v as int / 0x100_0000) + 0x1_0000 * ((v as int / 0x1_0000) % 0x100)
        + 0x100 * ((v as int / 0x100) % 0x100) + v as int % 0x100);
}

} // verus!
