//! HECI register layout: PCI location, MMIO offsets, CSR fields and the
//! 32-bit message header.

use vstd::prelude::*;

verus! {

// HECI PCI location
pub const HECI_BUS: u8 = 0;
pub const HECI_DEVICE: u8 = 22;
pub const HECI_FUNCTION: u8 = 0;

// PCI config space offsets
pub const PCI_VENDOR_ID: u8 = 0x00;
pub const PCI_COMMAND: u8 = 0x04;
pub const PCI_BAR0: u8 = 0x10;

/// Memory Space Enable bit of the PCI command register.
pub const PCI_CMD_MSE: u16 = 2;

pub const INTEL_VENDOR_ID: u16 = 0x8086;

// HECI MMIO register offsets from BAR0
/// Host circular buffer write window.
pub const H_CB_WW: u32 = 0x00;
/// Host control/status register.
pub const H_CSR: u32 = 0x04;
/// ME circular buffer read window.
pub const ME_CB_RW: u32 = 0x08;
/// ME control/status register (host access).
pub const ME_CSR_HA: u32 = 0x0C;

// CSR bit fields
/// Interrupt status (write 1 to clear).
pub const CSR_IS: u32 = 2;
/// Interrupt generate.
pub const CSR_IG: u32 = 4;
/// Ready.
pub const CSR_RDY: u32 = 8;
/// Reset.
pub const CSR_RST: u32 = 16;

pub const CSR_RP_SHIFT: u32 = 8;
pub const CSR_WP_SHIFT: u32 = 16;
pub const CSR_CBD_SHIFT: u32 = 24;

pub const CSR_RP_MASK: u32 = 0x0000_FF00;
pub const CSR_WP_MASK: u32 = 0x00FF_0000;
pub const CSR_CBD_MASK: u32 = 0xFF00_0000;

// Timeouts
/// Five seconds.
pub const HECI_TIMEOUT_US: u64 = 5_000_000;
/// One millisecond.
pub const HECI_POLL_US: u64 = 1_000;

/// Read pointer: bits 15..8 of a CSR.
pub fn csr_get_rp(csr: u32) -> (r: u32)
    ensures
        r == (csr / 0x100) % 0x100,
{
    let r = (csr & CSR_RP_MASK) >> CSR_RP_SHIFT;
    assert((csr & 0x0000_FF00) >> 8u32 == (csr / 0x100) % 0x100) by (bit_vector);
    r
}

/// Write pointer: bits 23..16 of a CSR.
pub fn csr_get_wp(csr: u32) -> (r: u32)
    ensures
        r == (csr / 0x1_0000) % 0x100,
{
    let r = (csr & CSR_WP_MASK) >> CSR_WP_SHIFT;
    assert((csr & 0x00FF_0000) >> 16u32 == (csr / 0x1_0000) % 0x100) by (bit_vector);
    r
}

/// Circular buffer depth: bits 31..24 of a CSR.
pub fn csr_get_cbd(csr: u32) -> (r: u32)
    ensures
        r == csr / 0x100_0000,
{
    let r = (csr & CSR_CBD_MASK) >> CSR_CBD_SHIFT;
    assert((csr & 0xFF00_0000) >> 24u32 == csr / 0x100_0000) by (bit_vector);
    r
}

/// Number of occupied slots in a circular buffer of `depth` slots.
pub fn filled_slots(wp: u32, rp: u32, depth: u32) -> (r: u32)
    requires
        depth > 0,
    ensures
        r == ((wp as int - rp as int) % 0x1_0000_0000) % (depth as int),
        r < depth,
{
    (wp.wrapping_sub(rp)) % depth
}

/// Empty slots left for the host in the host circular buffer described by `h_csr`.
pub fn empty_slots(h_csr: u32) -> (r: u32)
    requires
        csr_get_cbd_spec(h_csr) > 0,
    ensures
        r == csr_get_cbd_spec(h_csr) - 1 - ((((h_csr / 0x1_0000) % 0x100) as int
            - ((h_csr / 0x100) % 0x100) as int) % 0x1_0000_0000) % (csr_get_cbd_spec(h_csr) as int),
{
    let wp = csr_get_wp(h_csr);
    let rp = csr_get_rp(h_csr);
    let depth = csr_get_cbd(h_csr);
    let filled = filled_slots(wp, rp, depth);
    depth - filled - 1
}

pub open spec fn csr_get_cbd_spec(csr: u32) -> u32 {
    csr / 0x100_0000
}

/// HECI message header, packed as a u32 on the wire:
/// bits 7..0 ME address, 15..8 host address, 24..16 length (9 bits),
/// 30..25 reserved, 31 message complete.
#[derive(Clone, Copy)]
pub struct HeciMsgHdr(pub u32);

pub open spec fn header_value(me_addr: u8, host_addr: u8, length: u16, msg_complete: bool) -> u32 {
    (me_addr as int + 0x100 * host_addr as int + 0x1_0000 * (length as int % 0x200) + if msg_complete {
        0x8000_0000int
    } else {
        0int
    }) as u32
}

impl HeciMsgHdr {
    pub fn new(me_addr: u8, host_addr: u8, length: u16, msg_complete: bool) -> (r: Self)
        ensures
            r.0 == header_value(me_addr, host_addr, length, msg_complete),
    {
        let me = me_addr as u32;
        let host = host_addr as u32;
        let len = (length & 0x1FF) as u32;
        let top: u32 = if msg_complete { 0x8000_0000 } else { 0 };
        let val = me | (host << 8) | (len << 16) | top;
        assert(length & 0x1FF == length % 0x200) by (bit_vector);
        assert(me < 0x100 && host < 0x100 && len < 0x200 && (top == 0 || top == 0x8000_0000) ==>
            me | (host << 8) | (len << 16) | top == me + 0x100 * host + 0x1_0000 * len + top)
            by (bit_vector);
        Self(val)
    }

    pub fn me_addr(self) -> (r: u8)
        ensures
            r == self.0 % 0x100,
    {
        let v = self.0;
        assert(v & 0xFF == v % 0x100) by (bit_vector);
        (self.0 & 0xFF) as u8
    }

    pub fn host_addr(self) -> (r: u8)
        ensures
            r == (self.0 / 0x100) % 0x100,
    {
        let v = self.0;
        assert((v >> 8u32) & 0xFF == (v / 0x100) % 0x100) by (bit_vector);
        ((self.0 >> 8) & 0xFF) as u8
    }

    pub fn length(self) -> (r: u16)
        ensures
            r == (self.0 / 0x1_0000) % 0x200,
    {
        let v = self.0;
        assert((v >> 16u32) & 0x1FF == (v / 0x1_0000) % 0x200) by (bit_vector);
        ((self.0 >> 16) & 0x1FF) as u16
    }

    pub fn msg_complete(self) -> (r: bool)
        ensures
            r == (self.0 >= 0x8000_0000),
    {
        let v = self.0;
        assert((v >> 31u32 != 0) == (v >= 0x8000_0000)) by (bit_vector);
        (self.0 >> 31) != 0
    }

    pub fn raw(self) -> (r: u32)
        ensures
            r == self.0,
    {
        self.0
    }
}

/// A header built from its fields gives those fields back (the length modulo 512,
/// since the wire field has nine bits).
pub proof fn lemma_header_fields(me_addr: u8, host_addr: u8, length: u16, msg_complete: bool)
    ensures
        header_value(me_addr, host_addr, length, msg_complete) % 0x100 == me_addr,
        (header_value(me_addr, host_addr, length, msg_complete) / 0x100) % 0x100 == host_addr,
        (header_value(me_addr, host_addr, length, msg_complete) / 0x1_0000) % 0x200 == length % 0x200,
        (header_value(me_addr, host_addr, length, msg_complete) >= 0x8000_0000) == msg_complete,
{
    let top: int = if msg_complete { 0x8000_0000 } else { 0 };
    let l = length as int % 0x200;
    let v = me_addr as int + 0x100 * host_addr as int + 0x1_0000 * l + top;
    assert(0 <= l < 0x200);
    assert(v < 0x1_0000_0000);
    assert(v % 0x100 == me_addr as int);
    assert(v / 0x100 == host_addr as int + 0x100 * l + top / 0x100);
    assert((v / 0x100) % 0x100 == host_addr as int);
    assert(v / 0x1_0000 == l + top / 0x1_0000);
    assert((v / 0x1_0000) % 0x200 == l);
}

} // verus!
