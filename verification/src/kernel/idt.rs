//! Interrupt descriptor table of the first kernel: raw gate entries.
use vstd::prelude::*;

verus! {

/// Value of the IDT register: size in bytes and address of a table of 256 gates.
pub struct reg {
    pub size: u16,
    pub addr: usize,
}

/// A gate descriptor.
pub struct entry {
    pub addr_lo: u16,
    pub sel: u16,
    pub zero: u8,
    pub flags: u8,
    pub addr_hi: u16,
}

pub const PRESENT: u8 = 1 << 7;
pub const PM_32: u8 = 1 << 3;

/// Bytes in a table of 256 eight-byte gates.
pub const TABLE_BYTES: u16 = 256 * 8;

impl reg {
    /// The register value for the table at `idt`.
    pub fn new(idt: usize) -> (r: reg)
        ensures
            r.size == TABLE_BYTES,
            r.addr == idt,
    {
        reg { addr: idt, size: TABLE_BYTES }
    }
}

/// Interrupt gate for handler `proc` in code segment `sel`; the type bits
/// `0b110` (interrupt gate) are added to `flags`.
pub fn entry(proc: u32, sel: u16, flags: u8) -> (e: entry)
    ensures
        e.addr_lo == proc % 0x10000,
        e.addr_hi == proc / 0x10000,
        e.sel == sel,
        e.zero == 0,
        e.flags == flags | 0b110,
{
    proof {
        assert(proc & 0xffff == proc % 0x10000) by (bit_vector);
        assert(proc >> 16 == proc / 0x10000) by (bit_vector);
    }
    entry {
        addr_lo: (proc & 0xffff) as u16,
        sel: sel,
        zero: 0,
        flags: flags | 0b110,
        addr_hi: (proc >> 16) as u16,
    }
}

} // verus!
