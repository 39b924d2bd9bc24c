//! Global descriptor table.
use vstd::prelude::*;
use vstd::layout::size_of;

verus! {

/// Access byte of a segment descriptor.
pub type GdtAccess = u8;

pub const ACCESSED: u8 = 1 << 0;
pub const EXTEND: u8 = 1 << 1;
pub const CONFORM: u8 = 1 << 2;
pub const CODE: u8 = 1 << 3;
/// Code or data segment (not a TSS).
pub const STORAGE: u8 = 1 << 4;
pub const DPL0: u8 = 0 << 5;
pub const DPL1: u8 = 1 << 5;
pub const DPL2: u8 = 2 << 5;
pub const DPL3: u8 = 3 << 5;
pub const PRESENT: u8 = 1 << 7;
pub const DATA_WRITE: u8 = EXTEND;
pub const CODE_READ: u8 = CODE | EXTEND;
pub const TSS: u8 = 0b1001;

/// Flags nibble of a segment descriptor.
pub type GdtFlags = u8;

pub const SIZE_32: u8 = 1 << 6;
pub const PAGES: u8 = 1 << 7;

/// A segment descriptor.
pub struct GdtEntry {
    pub limit_lo: u16,
    pub base_lo: u16,
    pub base_hl: u8,
    pub access: GdtAccess,
    pub limit_hi_flags: u8,
    pub base_hh: u8,
}

impl GdtEntry {
    /// The descriptor of the segment at `base` whose limit is the low 20 bits
    /// of `limit`.
    pub fn new(base: u32, limit: u32, access: GdtAccess, flags: GdtFlags) -> (e: GdtEntry)
        ensures
            e.base_lo == base % 0x10000,
            e.base_hl == (base / 0x10000) % 0x100,
            e.base_hh == base / 0x100_0000,
            e.base_lo + e.base_hl * 0x10000 + e.base_hh * 0x100_0000 == base,
            e.limit_lo == limit % 0x10000,
            e.limit_hi_flags == flags | (((limit / 0x10000) % 0x10) as u8),
            e.access == access,
    {
        let (base_hh, base_hl, base_lo) = (
            (base & 0xFF000000) >> 24,
            (base & 0x00FF0000) >> 16,
            (base & 0x0000FFFF),
        );
        let (limit_hi, limit_lo) = ((limit & 0x000F0000) >> 16, (limit & 0x0000FFFF));
        proof {
            assert((base & 0xFF000000) >> 24 == base / 0x100_0000 && (base & 0x00FF0000) >> 16 == (base
                / 0x10000) % 0x100 && base & 0x0000FFFF == base % 0x10000 && (limit & 0x000F0000)
                >> 16 == (limit / 0x10000) % 0x10 && limit & 0x0000FFFF == limit % 0x10000)
                by (bit_vector);
        }
        GdtEntry {
            limit_lo: limit_lo as u16,
            base_lo: base_lo as u16,
            base_hl: base_hl as u8,
            base_hh: base_hh as u8,
            access: access,
            limit_hi_flags: flags | limit_hi as u8,
        }
    }

    /// The descriptor of a segment holding one `T` at address `data`.
    pub fn seg<T>(data: u32, access: GdtAccess, flags: GdtFlags) -> (e: GdtEntry)
        ensures
            e == GdtEntry::spec_new(data, size_of::<T>() as u32, access, flags),
    {
        GdtEntry::new(data, core::mem::size_of::<T>() as u32, access, flags)
    }

    /// A 4 GiB segment at 0 counted in pages.
    pub fn flat(access: GdtAccess, flags: GdtFlags) -> (e: GdtEntry)
        ensures
            e == GdtEntry::flat_spec(access, flags),
    {
        GdtEntry::new(0, 0xFFFFF, access, flags | PAGES)
    }

    /// What `flat` builds.
    pub open spec fn flat_spec(access: GdtAccess, flags: GdtFlags) -> GdtEntry {
        GdtEntry::spec_new(0, 0xFFFFF, access, flags | PAGES)
    }

    /// What `new` builds.
    pub open spec fn spec_new(base: u32, limit: u32, access: GdtAccess, flags: GdtFlags) -> GdtEntry {
        GdtEntry {
            limit_lo: (limit % 0x10000) as u16,
            base_lo: (base % 0x10000) as u16,
            base_hl: ((base / 0x10000) % 0x100) as u8,
            base_hh: (base / 0x100_0000) as u8,
            access: access,
            limit_hi_flags: flags | (((limit / 0x10000) % 0x10) as u8),
        }
    }
}

/// A global descriptor table of 256 descriptors.
pub struct Gdt {
    table: Vec<GdtEntry>,
}

impl Gdt {
    pub closed spec fn entries(&self) -> Seq<GdtEntry> {
        self.table@
    }

    /// A table of 256 zeroed descriptors.
    pub fn new() -> (g: Gdt)
        ensures
            g.entries().len() == 256,
            forall|i: int| 0 <= i < 256 ==> #[trigger] g.entries()[i] == GdtEntry::spec_new(0, 0, 0, 0),
    {
        let mut table: Vec<GdtEntry> = Vec::new();
        let mut i: usize = 0;
        while i < 256
            invariant
                i <= 256,
                table@.len() == i,
                forall|j: int| 0 <= j < i ==> #[trigger] table@[j] == GdtEntry::spec_new(0, 0, 0, 0),
            decreases 256 - i,
        {
            table.push(GdtEntry::new(0, 0, 0, 0));
            i = i + 1;
        }
        Gdt { table }
    }

    /// The descriptor at slot `n`.
    pub fn entry(&self, n: usize) -> (e: &GdtEntry)
        requires
            n < self.entries().len(),
        ensures
            *e == self.entries()[n as int],
    {
        &self.table[n]
    }

    /// Stores `entry`, marked present, at slot `n`.
    pub fn enable(&mut self, n: usize, entry: GdtEntry)
        requires
            n < old(self).entries().len(),
        ensures
            final(self).entries() == old(self).entries().update(
                n as int,
                GdtEntry { access: entry.access | PRESENT, ..entry },
            ),
    {
        let mut entry = entry;
        entry.access = entry.access | PRESENT;
        self.table.set(n, entry);
    }

    /// Marks the descriptor at slot `n` not present.
    pub fn disable(&mut self, n: usize)
        requires
            n < old(self).entries().len(),
        ensures
            final(self).entries() == old(self).entries().update(
                n as int,
                GdtEntry { access: old(self).entries()[n as int].access & !PRESENT, ..old(self).entries()[n as int] },
            ),
    {
        let old_entry = &self.table[n];
        let entry = GdtEntry {
            limit_lo: old_entry.limit_lo,
            base_lo: old_entry.base_lo,
            base_hl: old_entry.base_hl,
            access: old_entry.access & !PRESENT,
            limit_hi_flags: old_entry.limit_hi_flags,
            base_hh: old_entry.base_hh,
        };
        self.table.set(n, entry);
    }
}

} // verus!
