//! ARM first-level translation table: section descriptors.
use vstd::prelude::*;
use crate::kernel::mm::physical::Phys;

verus! {

/// Attribute bits of a descriptor.
pub type Flags = u32;

/// Section descriptor type bits.
pub const SECTION: u32 = 0b10010;
pub const BUFFER: u32 = 1 << 2;
pub const CACHE: u32 = BUFFER << 1;
pub const RW: u32 = 1 << 10;
pub const CLIENT_ACCESS: u32 = RW << 1;

pub const PAGE_SIZE: u32 = 0x1000;
pub const PAGE_SIZE_LOG2: u32 = 12;

/// Domain access: each of the 16 domains gets two bits.
pub const KERNEL: u32 = 0b11 << 0;
pub const USER: u32 = 0b11 << 2;
pub const NOACCESS: u32 = 0;
pub const CLIENT: u32 = 0b01 * 0x55555555;
pub const MANAGER: u32 = 0b11 * 0x55555555;

/// Bits of the system control register (coprocessor 15, register 1).
pub const CR_M: u32 = 1 << 0;
pub const CR_A: u32 = 1 << 1;
pub const CR_C: u32 = 1 << 2;
pub const CR_W: u32 = 1 << 3;
pub const CR_P: u32 = 1 << 4;
pub const CR_D: u32 = 1 << 5;
pub const CR_L: u32 = 1 << 6;
pub const CR_B: u32 = 1 << 7;
pub const CR_S: u32 = 1 << 8;
pub const CR_R: u32 = 1 << 9;
pub const CR_F: u32 = 1 << 10;
pub const CR_Z: u32 = 1 << 11;
pub const CR_I: u32 = 1 << 12;
pub const CR_V: u32 = 1 << 13;
pub const CR_RR: u32 = 1 << 14;
pub const CR_L4: u32 = 1 << 15;

/// The values that the domain access register (c3) and the translation
/// table base register (c2) take to make `dir` the current directory.
pub fn switch_directory(dir: &Phys) -> (r: (u32, u32))
    ensures
        r.0 == (KERNEL & MANAGER) | (USER & MANAGER),
        r.1 == dir.addr() % 0x1_0000_0000,
{
    (cpu_domain(), dir.offset())
}

/// The control register value that turns the MMU on: `cr` without the
/// alignment-fault, write-buffer, 26-bit and ROM-protection bits and with
/// system protection, both caches and the MMU enabled.
pub fn enable_paging(cr: u32) -> (r: u32)
    ensures
        r == (cr & !(CR_A | CR_W | CR_P | CR_D | CR_R | CR_F | CR_Z | CR_V | CR_RR)) | (CR_S
            | CR_I | CR_C | CR_M),
{
    let clear = CR_A | CR_W | CR_P | CR_D | CR_R | CR_F | CR_Z | CR_V | CR_RR;
    let set = CR_S | CR_I | CR_C | CR_M;
    (cr & !clear) | set
}

/// A first-level descriptor.
pub struct Descriptor(pub u32);

impl Descriptor {
    /// The section descriptor mapping the 1 MiB section at `base` with `flags`.
    pub fn section(base: u32, flags: Flags) -> (d: Descriptor)
        ensures
            d.0 == base | flags | SECTION,
    {
        Descriptor(base | flags | SECTION)
    }
}

/// A first-level translation table of 4096 descriptors.
pub struct PageDirectory {
    pub entries: Vec<Descriptor>,
}

/// Domain access value that makes the kernel and user domains managers.
pub fn cpu_domain() -> (d: u32)
    ensures
        d == (KERNEL & MANAGER) | (USER & MANAGER),
{
    KERNEL & MANAGER | USER & MANAGER
}

} // verus!
