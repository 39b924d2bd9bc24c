//! Interrupt descriptor table entries.
use vstd::prelude::*;

verus! {

/// Type and present bits of a gate descriptor.
pub type IdtFlags = u8;

pub const INTR_GATE: u8 = 0b1110;
pub const TRAP_GATE: u8 = 0b1111;
pub const PRESENT: u8 = 1 << 7;

/// A gate descriptor.
pub struct IdtEntry {
    pub addr_lo: u16,
    pub sel: u16,
    pub zero: u8,
    pub flags: IdtFlags,
    pub addr_hi: u16,
}

impl IdtEntry {
    /// Gate to the handler at address `func` in code segment `sel`.
    pub fn new(func: u32, sel: u16, flags: IdtFlags) -> (e: IdtEntry)
        ensures
            e.addr_lo == func % 0x10000,
            e.addr_hi == func / 0x10000,
            e.addr_lo + e.addr_hi * 0x10000 == func,
            e.sel == sel,
            e.zero == 0,
            e.flags == flags,
    {
        let addr = func;
        let (addr_hi, addr_lo) = ((addr & 0xFFFF0000) >> 16, (addr & 0x0000FFFF));
        proof {
            assert((addr & 0xFFFF0000) >> 16 == addr / 0x10000) by (bit_vector);
            assert(addr & 0x0000FFFF == addr % 0x10000) by (bit_vector);
        }
        IdtEntry { addr_lo: addr_lo as u16, addr_hi: addr_hi as u16, sel: sel, zero: 0, flags: flags }
    }

    pub open spec fn spec_new(func: u32, sel: u16, flags: IdtFlags) -> IdtEntry {
        IdtEntry {
            addr_lo: (func % 0x10000) as u16,
            addr_hi: (func / 0x10000) as u16,
            sel,
            zero: 0,
            flags,
        }
    }
}

} // verus!
