//! PCI configuration-space addressing (mechanism #1, ports 0xCF8/0xCFC).

use vstd::prelude::*;

verus! {

pub const PCI_CONFIG_ADDR: u16 = 0xCF8;
pub const PCI_CONFIG_DATA: u16 = 0xCFC;

/// Build a PCI configuration address for a given BDF + register offset.
pub fn pci_addr(bus: u8, device: u8, function: u8, offset: u8) -> (r: u32)
    ensures
        r == (0x8000_0000u32 | ((bus as u32) << 16u32) | ((device as u32) << 11u32) | ((function as u32)
            << 8u32) | ((offset as u32) & 0xFCu32)),
        device < 32 && function < 8 ==> r == 0x8000_0000 + 0x1_0000 * bus + 0x800 * device + 0x100
            * function + offset - offset % 4,
{
    let b = bus as u32;
    let d = device as u32;
    let f = function as u32;
    let o = offset as u32;
    let r = 0x8000_0000u32 | (b << 16) | (d << 11) | (f << 8) | (o & 0xFC);
    assert(b < 256 && d < 32 && f < 8 && o < 256 ==> 0x8000_0000u32 | (b << 16u32) | (d << 11u32) | (f
        << 8u32) | (o & 0xFCu32) == 0x8000_0000u32 + 0x1_0000u32 * b + 0x800u32 * d + 0x100u32 * f + (o
        - o % 4)) by (bit_vector);
    r
}

} // verus!
