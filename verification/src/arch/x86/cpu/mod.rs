//! x86 processor structures.
use vstd::prelude::*;
use core::marker::PhantomData;
use vstd::layout::size_of;
use crate::arch::x86::cpu::gdt::{Gdt, GdtEntry, SIZE_32, STORAGE, CODE_READ, DATA_WRITE, DPL3, PRESENT};

pub mod exception;
pub mod gdt;
pub mod idt;
pub mod interrupt;
pub mod mmu;
pub mod paging;

verus! {

/// Value of a descriptor-table register (`lgdt`/`lidt` operand): the
/// table's size in bytes, cut to 16 bits, and its address.
pub struct DtReg<T> {
    pub size: u16,
    pub addr: usize,
    pub phantom: PhantomData<T>,
}

impl<T> DtReg<T> {
    /// The register for a table of `capacity` descriptors at `descriptor_table`.
    pub fn new(descriptor_table: usize, capacity: usize) -> (r: DtReg<T>)
        requires
            capacity * size_of::<T>() <= usize::MAX,
        ensures
            r.size == (capacity * size_of::<T>()) % 0x10000,
            r.addr == descriptor_table,
    {
        let bytes: usize = capacity * core::mem::size_of::<T>();
        let size: u16 = (bytes & 0xFFFF) as u16;
        proof {
            assert(bytes & 0xFFFF == bytes % 0x10000) by (bit_vector);
        }
        DtReg { size, addr: descriptor_table, phantom: PhantomData }
    }
}

/// Carry flag of EFLAGS.
pub const CF: u32 = 1 << 0;
/// Interrupt-enable flag of EFLAGS.
pub const IF: u32 = 1 << 9;

/// The EFLAGS bits the kernel knows of.
pub struct Eflags {
    pub bits: u32,
}

impl Eflags {
    /// The known flags among `bits` (as read from the register); the
    /// others are dropped.
    pub fn from_bits_truncate(bits: u32) -> (f: Eflags)
        ensures
            f.bits == bits & (CF | IF),
    {
        Eflags { bits: bits & (CF | IF) }
    }

    /// All of `flags` are set.
    pub fn contains(&self, flags: u32) -> (b: bool)
        ensures
            b == (self.bits & flags == flags),
    {
        self.bits & flags == flags
    }
}

/// Reports processor information; there is none to report yet.
pub fn info() {
}


/// Code segment selector of the kernel (descriptor 1).
pub const KERNEL_CODE: u16 = 1 << 3;
/// Data segment selector of the kernel (descriptor 2).
pub const KERNEL_DATA: u16 = 2 << 3;
/// Selector of the thread-local segment (descriptor 5).
pub const LOCAL: u16 = 5 << 3;

/// The descriptor `e` as `Gdt::enable` stores it.
pub open spec fn present(e: GdtEntry) -> GdtEntry {
    GdtEntry { access: e.access | PRESENT, ..e }
}

/// The kernel's descriptor table: flat ring-0 code and data (1, 2), flat
/// ring-3 code and data (3, 4), the 128-byte thread-local block at `tls`
/// (5) and the task-state segment `tss` (6). The table is then loaded with
/// the selectors `KERNEL_CODE`, `KERNEL_DATA` and `LOCAL`.
pub fn init(tls: u32, tss: GdtEntry) -> (t: Gdt)
    ensures
        t.entries().len() == 256,
        t.entries()[0] == GdtEntry::spec_new(0, 0, 0, 0),
        t.entries()[1] == present(GdtEntry::flat_spec(STORAGE | CODE_READ, SIZE_32)),
        t.entries()[2] == present(GdtEntry::flat_spec(STORAGE | DATA_WRITE, SIZE_32)),
        t.entries()[3] == present(GdtEntry::flat_spec(STORAGE | CODE_READ | DPL3, SIZE_32)),
        t.entries()[4] == present(GdtEntry::flat_spec(STORAGE | DATA_WRITE | DPL3, SIZE_32)),
        t.entries()[5] == present(GdtEntry::spec_new(tls, 128u32, STORAGE | DPL3, SIZE_32)),
        t.entries()[6] == present(tss),
        forall|i: int| 7 <= i < 256 ==> #[trigger] t.entries()[i] == GdtEntry::spec_new(0, 0, 0, 0),
{
    let mut t = Gdt::new();
    t.enable(1, GdtEntry::flat(STORAGE | CODE_READ, SIZE_32));
    t.enable(2, GdtEntry::flat(STORAGE | DATA_WRITE, SIZE_32));
    t.enable(3, GdtEntry::flat(STORAGE | CODE_READ | DPL3, SIZE_32));
    t.enable(4, GdtEntry::flat(STORAGE | DATA_WRITE | DPL3, SIZE_32));
    t.enable(5, GdtEntry::new(tls, 32 * 4, STORAGE | DPL3, SIZE_32));
    t.enable(6, tss);
    t
}

} // verus!
