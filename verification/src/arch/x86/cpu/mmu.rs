//! Memory Management Unit - Translates virtual memory addresses to
//! physical addresses. Memory is grouped into tabulated Pages. This module
//! defines the page-table entries (`Page`) and the tables of 1024 of them.
use vstd::prelude::*;
use vstd::arithmetic::power2::pow2;
use crate::kernel::mm::physical::{Phys, zero_alloc_frames, alloc_frames};
use crate::arch::x86::runtime::pow256;
use crate::kernel::mm::allocator::{Alloc, Blocks, free_block, size_order, first_free, claim, lemma_first_free_exists};
use crate::kernel::elf::le;

verus! {

/// Flag bits of a page-table entry.
pub type Flags = u32;

pub const PRESENT: u32 = 0x1;
pub const RW: u32 = 0x2;
pub const USER: u32 = 0x4;
pub const ACCESSED: u32 = 0x20;
pub const HUGE: u32 = 0x80;

pub const PAGE_SIZE: u32 = 0x1000;
pub const PAGE_SIZE_LOG2: u32 = 12;
pub const ENTRIES: usize = 1024;
/// Virtual address at which the page directory maps itself.
pub const DIR_VADDR: u32 = 0xFFFFF000;
/// Bytes mapped by one entry of a page table.
pub const TABLE_SPAN: u32 = 0x1000;
/// Bytes mapped by one entry of a page directory.
pub const DIRECTORY_SPAN: u32 = 0x40_0000;
/// Directory entries that map the user half of the address space, below
/// 3 GiB.
pub const USER_TABLES: usize = 768;

/// Paging-enable bit of control register CR0.
pub const CR0_PG: u32 = 0x8000_0000;

/// The value that control register CR3 takes to make `dir` the current page
/// directory: its physical address.
pub fn switch_directory(dir: &Phys) -> (cr3: usize)
    ensures
        cr3 == dir.addr(),
{
    dir.as_ptr()
}

/// The value of control register CR0 that turns paging on: `cr0` with the
/// paging bit set.
pub fn enable_paging(cr0: u32) -> (r: u32)
    ensures
        r == cr0 | CR0_PG,
        r & CR0_PG == CR0_PG,
        r & !CR0_PG == cr0 & !CR0_PG,
{
    let r = cr0 | CR0_PG;
    assert(r & 0x8000_0000u32 == 0x8000_0000u32 && r & !0x8000_0000u32 == cr0 & !0x8000_0000u32)
        by (bit_vector)
        requires
            r == cr0 | 0x8000_0000u32,
    ;
    r
}

/// `m` with the four bytes from `at` holding `v`, least significant first.
pub open spec fn store_u32(m: Seq<u8>, at: int, v: u32) -> Seq<u8> {
    Seq::new(
        m.len(),
        |i: int|
            if at <= i < at + 4 {
                ((v as nat / pow256(i - at)) % 256) as u8
            } else {
                m[i]
            },
    )
}

/// `m` with the `n` bytes from `at` set to zero.
pub open spec fn zero_bytes(m: Seq<u8>, at: int, n: int) -> Seq<u8> {
    Seq::new(m.len(), |i: int| if at <= i < at + n { 0u8 } else { m[i] })
}

/// Stores `v` in the four bytes of `mem` from `at`, least significant first.
fn store_word(mem: &mut [u8], at: usize, v: u32)
    requires
        at + 4 <= old(mem)@.len(),
    ensures
        final(mem)@ == store_u32(old(mem)@, at as int, v),
{
    proof {
        assert(v & 0xFF == v % 256 && (v >> 8) & 0xFF == (v / 0x100) % 256 && (v >> 16) & 0xFF == (v
            / 0x10000) % 256 && v >> 24 == (v / 0x100_0000) % 256) by (bit_vector);
    }
    mem[at] = (v & 0xFF) as u8;
    mem[at + 1] = ((v >> 8) & 0xFF) as u8;
    mem[at + 2] = ((v >> 16) & 0xFF) as u8;
    mem[at + 3] = (v >> 24) as u8;
    assert(pow256(0) == 1 && pow256(1) == 0x100 && pow256(2) == 0x10000 && pow256(3) == 0x100_0000);
    assert forall|i: int| 0 <= i < mem@.len() implies #[trigger] mem@[i] == store_u32(
        old(mem)@,
        at as int,
        v,
    )[i] by {
        if at <= i < at + 4 {
            assert(i - at == 0 || i - at == 1 || i - at == 2 || i - at == 3);
        }
    }
    assert(mem@ =~= store_u32(old(mem)@, at as int, v));
}

/// Directory entries, frame blocks and frame memory after `set_page`
/// maps `vptr` to the frame at `phys` with `flags`, starting from `d`, `v`
/// and `m` (the frame allocator's memory from `base`).
pub open spec fn set_page_spec(
    d: Seq<Page>,
    v: Blocks,
    m: Seq<u8>,
    base: nat,
    vptr: u32,
    phys: nat,
    flags: u32,
) -> (Seq<Page>, Blocks, Seq<u8>) {
    let i = entry_index(DIRECTORY_SPAN, vptr);
    let e = d[i];
    let t = table_frame(e, v, base);
    let at = t - base + 4 * ((vptr / 4096) % 1024);
    let val = (phys as u32) | flags;
    if e.0 & PRESENT == PRESENT {
        (d, v, store_u32(m, at, val))
    } else {
        (
            d.update(i, Page((t as u32) | flags)),
            claim(v, first_free(v, 0), 0),
            store_u32(zero_bytes(m, t - base, 4096), at, val),
        )
    }
}

/// `set_page_spec` for a fresh frame: the first free one of `v`, mapped
/// present with `flags`.
pub open spec fn map_frame_spec(d: Seq<Page>, v: Blocks, m: Seq<u8>, base: nat, vptr: u32, flags: u32) -> (
    Seq<Page>,
    Blocks,
    Seq<u8>,
) {
    let f = first_free(v, 0);
    set_page_spec(d, claim(v, f, 0), m, base, vptr, base + f * 4096, flags | PRESENT)
}

/// `map_frame` can run on this state: a frame is free, and so is one for
/// the page table when the directory has none for `vptr`.
pub open spec fn map_frame_ok(d: Seq<Page>, v: Blocks, base: nat, len: nat, vptr: u32) -> bool {
    &&& exists|o: nat| #[trigger] free_block(v, o, 0)
    &&& table_ready(d[entry_index(DIRECTORY_SPAN, vptr)], claim(v, first_free(v, 0), 0), base, len)
}

/// The state after mapping a fresh frame at each page from `p` on, in steps
/// of 4 KiB, while below `end`.
pub open spec fn map_spec(
    d: Seq<Page>,
    v: Blocks,
    m: Seq<u8>,
    base: nat,
    p: nat,
    end: nat,
    flags: u32,
) -> (Seq<Page>, Blocks, Seq<u8>)
    decreases (if p < end { end - p } else { 0 }),
{
    if p < end {
        let s = map_frame_spec(d, v, m, base, p as u32, flags);
        map_spec(s.0, s.1, s.2, base, p + 4096, end, flags)
    } else {
        (d, v, m)
    }
}

/// Every step of `map_spec` from `p` can run.
pub open spec fn map_ok(
    d: Seq<Page>,
    v: Blocks,
    m: Seq<u8>,
    base: nat,
    len: nat,
    p: nat,
    end: nat,
    flags: u32,
) -> bool
    decreases (if p < end { end - p } else { 0 }),
{
    if p < end {
        let s = map_frame_spec(d, v, m, base, p as u32, flags);
        map_frame_ok(d, v, base, len, p as u32) && map_ok(s.0, s.1, s.2, base, len, p + 4096, end, flags)
    } else {
        true
    }
}

/// The state of a directory `d`, the current directory `c`, the frame
/// blocks and the frame memory after `map_into` maps a fresh frame at each
/// page from `p` on, in steps of 4 KiB, while below `end`: each frame is
/// entered in `d`, then in `c`.
pub open spec fn map_into_spec(
    d: Seq<Page>,
    c: Seq<Page>,
    v: Blocks,
    m: Seq<u8>,
    base: nat,
    p: nat,
    end: nat,
    flags: u32,
) -> (Seq<Page>, Seq<Page>, Blocks, Seq<u8>)
    decreases (if p < end { end - p } else { 0 }),
{
    if p < end {
        let f = first_free(v, 0);
        let frame = base + f * 4096;
        let s1 = set_page_spec(d, claim(v, f, 0), m, base, p as u32, frame, flags | PRESENT);
        let s2 = set_page_spec(c, s1.1, s1.2, base, p as u32, frame, flags | PRESENT);
        map_into_spec(s1.0, s2.0, s2.1, s2.2, base, p + 4096, end, flags)
    } else {
        (d, c, v, m)
    }
}

/// Every step of `map_into_spec` from `p` can run.
pub open spec fn map_into_ok(
    d: Seq<Page>,
    c: Seq<Page>,
    v: Blocks,
    m: Seq<u8>,
    base: nat,
    len: nat,
    p: nat,
    end: nat,
    flags: u32,
) -> bool
    decreases (if p < end { end - p } else { 0 }),
{
    if p < end {
        let f = first_free(v, 0);
        let frame = base + f * 4096;
        let s1 = set_page_spec(d, claim(v, f, 0), m, base, p as u32, frame, flags | PRESENT);
        let s2 = set_page_spec(c, s1.1, s1.2, base, p as u32, frame, flags | PRESENT);
        &&& map_frame_ok(d, v, base, len, p as u32)
        &&& table_ready(c[entry_index(DIRECTORY_SPAN, p as u32)], s1.1, base, len)
        &&& map_into_ok(s1.0, s2.0, s2.1, s2.2, base, len, p + 4096, end, flags)
    } else {
        true
    }
}

/// Directory entries, frame blocks, frame memory and the table address
/// after `fetch_table` for `vaddr` on a table whose entries `d` map `span`
/// bytes each, with frame blocks `v`, memory `m` from `base` and elements of
/// `2^el` bytes.
pub open spec fn fetch_spec(
    d: Seq<Page>,
    v: Blocks,
    m: Seq<u8>,
    base: nat,
    el: nat,
    span: u32,
    vaddr: u32,
    flags: u32,
) -> (Seq<Page>, Blocks, Seq<u8>, nat) {
    let i = entry_index(span, vaddr);
    let e = d[i];
    if e.0 & PRESENT == PRESENT {
        (d, v, m, (e.0 & 0xFFFFF000) as nat)
    } else {
        let o = first_free(v, size_order(1));
        let t = base + o * pow2(el);
        (
            d.update(i, Page((t as u32) | flags)),
            claim(v, o, size_order(1)),
            zero_bytes(m, (o * pow2(el)) as int, (pow2(size_order(1)) * pow2(el)) as int),
            t,
        )
    }
}

/// The page table for a directory entry `e`, as `fetch_table` finds or
/// makes it: the frame the entry names when it is present, otherwise the
/// first free 4 KiB frame of the frame allocator with blocks `v` at `base`.
pub open spec fn table_frame(e: Page, v: Blocks, base: nat) -> nat {
    if e.0 & PRESENT == PRESENT {
        (e.0 & 0xFFFFF000) as nat
    } else {
        base + first_free(v, 0) * 4096
    }
}

/// A page table can be had for directory entry `e`: the table it names
/// lies in the frame allocator's memory of `len` bytes from `base`, or, when
/// it names none, a frame is free.
pub open spec fn table_ready(e: Page, v: Blocks, base: nat, len: nat) -> bool {
    if e.0 & PRESENT == PRESENT {
        base <= e.0 & 0xFFFFF000 && (e.0 & 0xFFFFF000) - base + 4096 <= len
    } else {
        exists|o: nat| #[trigger] free_block(v, o, 0)
    }
}

/// A page-table or page-directory entry: a frame address and flag bits.
pub struct Page(pub u32);

impl Page {
    /// The entry for the frame at `addr` with `flags`.
    pub fn new(addr: Phys, flags: Flags) -> (p: Page)
        requires
            addr.addr() <= u32::MAX,
        ensures
            p.0 == (addr.addr() as u32) | flags,
    {
        Page(addr.as_ptr() as u32 | flags)
    }

    /// The entry for frame number `i` with `flags`.
    pub fn at_frame(i: u32, flags: Flags) -> (p: Page)
        requires
            i * PAGE_SIZE <= u32::MAX,
        ensures
            p.0 == ((i * PAGE_SIZE) as u32) | flags,
    {
        Page(i * PAGE_SIZE | flags)
    }

    /// The frame address of the entry.
    pub fn physical(&self) -> (p: Phys)
        ensures
            p.addr() == self.0 & 0xFFFFF000,
    {
        let Page(p) = *self;
        Phys::at(p & 0xFFFFF000)
    }

    /// The entry maps a frame.
    pub fn is_present(&self) -> (b: bool)
        ensures
            b == (self.0 & PRESENT == PRESENT),
    {
        self.contains(PRESENT)
    }

    /// All of `flags` are set in the entry.
    pub fn contains(&self, flags: Flags) -> (b: bool)
        ensures
            b == (self.0 & flags == flags),
    {
        let Page(bits) = *self;
        (bits & flags) == flags
    }

    /// What the entry shows when printed: its frame address, then `P`, `R`,
    /// `U` and `A` for its present, writable, user and accessed flags, a
    /// space standing for each flag that is clear.
    pub fn show(&self) -> (r: (u32, char, char, char, char))
        ensures
            r.0 == self.0 & 0xFFFFF000,
            r.1 == (if self.0 & PRESENT == PRESENT { 'P' } else { ' ' }),
            r.2 == (if self.0 & RW == RW { 'R' } else { ' ' }),
            r.3 == (if self.0 & USER == USER { 'U' } else { ' ' }),
            r.4 == (if self.0 & ACCESSED == ACCESSED { 'A' } else { ' ' }),
    {
        let Page(p) = *self;
        let page = p & 0xFFFFF000;
        let present = if self.contains(PRESENT) { 'P' } else { ' ' };
        let rw = if self.contains(RW) { 'R' } else { ' ' };
        let user = if self.contains(USER) { 'U' } else { ' ' };
        let accessed = if self.contains(ACCESSED) { 'A' } else { ' ' };
        (page, present, rw, user, accessed)
    }

    /// The entry with `other` flags added.
    pub fn bitor(&self, other: Flags) -> (p: Page)
        ensures
            p.0 == self.0 | other,
    {
        let Page(bits) = *self;
        Page(bits | other)
    }
}

impl Clone for Page {
    fn clone(&self) -> (p: Page)
        ensures
            p == *self,
    {
        Page(self.0)
    }
}

impl Copy for Page {
}

/// Index of the entry of a table whose entries map `span` bytes each that
/// covers address `addr`.
pub open spec fn entry_index(span: u32, addr: u32) -> int {
    ((addr / span) % 1024) as int
}

/// A table of 1024 entries: a page table, whose entries map 4 KiB frames,
/// or a page directory, whose entries map 4 MiB through page tables.
pub struct Table {
    entries: Vec<Page>,
    span: u32,
}

/// A page table.
pub type PageTable = Table;

/// A page directory.
pub type PageDirectory = Table;

impl Table {
    pub closed spec fn view_entries(&self) -> Seq<Page> {
        self.entries@
    }

    /// Bytes mapped by one entry.
    pub closed spec fn spec_span(&self) -> u32 {
        self.span
    }

    pub open spec fn wf(&self) -> bool {
        &&& self.view_entries().len() == ENTRIES
        &&& (self.spec_span() == TABLE_SPAN || self.spec_span() == DIRECTORY_SPAN)
    }

    fn zeroed(span: u32) -> (t: Table)
        requires
            span == TABLE_SPAN || span == DIRECTORY_SPAN,
        ensures
            t.wf(),
            t.spec_span() == span,
            forall|i: int| 0 <= i < ENTRIES ==> #[trigger] t.view_entries()[i] == Page(0),
    {
        let mut entries: Vec<Page> = Vec::new();
        let mut i: usize = 0;
        while i < ENTRIES
            invariant
                i <= ENTRIES,
                entries@.len() == i,
                forall|j: int| 0 <= j < i ==> #[trigger] entries@[j] == Page(0),
            decreases ENTRIES - i,
        {
            entries.push(Page(0));
            i = i + 1;
        }
        Table { entries, span }
    }

    /// A page table whose entries are all zero, as a zeroed frame holds it.
    pub fn page_table() -> (t: PageTable)
        ensures
            t.wf(),
            t.spec_span() == TABLE_SPAN,
            forall|i: int| 0 <= i < ENTRIES ==> #[trigger] t.view_entries()[i] == Page(0),
    {
        Table::zeroed(TABLE_SPAN)
    }

    /// A page directory whose entries are all zero, as a zeroed frame holds it.
    pub fn page_directory() -> (t: PageDirectory)
        ensures
            t.wf(),
            t.spec_span() == DIRECTORY_SPAN,
            forall|i: int| 0 <= i < ENTRIES ==> #[trigger] t.view_entries()[i] == Page(0),
    {
        Table::zeroed(DIRECTORY_SPAN)
    }

    /// Stores `page` in the entry that covers address `addr`.
    pub fn set(&mut self, addr: u32, page: Page)
        requires
            old(self).wf(),
        ensures
            final(self).wf(),
            final(self).spec_span() == old(self).spec_span(),
            final(self).view_entries() == old(self).view_entries().update(
                entry_index(old(self).spec_span(), addr),
                page,
            ),
    {
        let index = ((addr / self.span) % 1024) as usize;
        self.entries.set(index, page);
    }

    /// The entry that covers address `addr`.
    pub fn get(&self, addr: u32) -> (p: Page)
        requires
            self.wf(),
        ensures
            p == self.view_entries()[entry_index(self.spec_span(), addr)],
    {
        let index = ((addr / self.span) % 1024) as usize;
        self.entries[index]
    }

    /// Maps address `vaddr` to the frame at `phys` with `flags`. (The
    /// caller flushes the TLB entry of `vaddr`.)
    pub fn set_addr(&mut self, vaddr: u32, phys: Phys, flags: Flags)
        requires
            old(self).wf(),
            phys.addr() <= u32::MAX,
        ensures
            final(self).wf(),
            final(self).spec_span() == old(self).spec_span(),
            final(self).view_entries() == old(self).view_entries().update(
                entry_index(old(self).spec_span(), vaddr),
                Page((phys.addr() as u32) | flags),
            ),
    {
        let page = Page::new(phys, flags);
        self.set(vaddr, page);
    }

    /// Maps the 1024 frames from frame number `start` on, one per entry.
    pub fn identity_map(&mut self, start: u32, flags: Flags)
        requires
            old(self).wf(),
            (start + ENTRIES) * PAGE_SIZE <= u32::MAX + 1,
        ensures
            final(self).wf(),
            final(self).spec_span() == old(self).spec_span(),
            forall|i: int|
                0 <= i < ENTRIES ==> #[trigger] final(self).view_entries()[i] == Page(
                    (((start + i) * PAGE_SIZE) as u32) | flags,
                ),
    {
        let mut i: usize = 0;
        while i < ENTRIES
            invariant
                i <= ENTRIES,
                self.wf(),
                self.spec_span() == old(self).spec_span(),
                (start + ENTRIES) * PAGE_SIZE <= u32::MAX + 1,
                forall|j: int|
                    0 <= j < i ==> #[trigger] self.view_entries()[j] == Page(
                        (((start + j) * PAGE_SIZE) as u32) | flags,
                    ),
            decreases ENTRIES - i,
        {
            let p = Page::at_frame(start + i as u32, flags);
            self.entries.set(i, p);
            i = i + 1;
        }
    }

    /// The page table that maps `vaddr`, for a directory: the table that the
    /// directory's entry for `vaddr` names when that entry is present;
    /// otherwise a zeroed frame taken from `frames`, which the entry then
    /// names with `flags`. `mem` holds the memory of the frame allocator, from
    /// its base on. (The caller flushes the TLB entry of `vaddr`.)
    #[verifier::rlimit(40)]
    pub fn fetch_table(&mut self, vaddr: u32, flags: Flags, frames: &mut Alloc, mem: &mut [u8]) -> (table: Phys)
        requires
            old(self).wf(),
            old(frames).wf(),
            old(mem)@.len() == pow2(
                old(frames).spec_parent().spec_order() + old(frames).spec_el_size(),
            ),
            old(frames).spec_base() + pow2(
                old(frames).spec_parent().spec_order() + old(frames).spec_el_size(),
            ) <= u32::MAX + 1,
            old(frames).spec_el_size() == 12,
            old(frames).spec_base() % 4096 == 0,
            flags < 4096,
            old(self).view_entries()[entry_index(old(self).spec_span(), vaddr)].0 & PRESENT
                != PRESENT ==> exists|o: nat|
                #[trigger] free_block(old(frames).spec_parent()@, o, size_order(1)),
        ensures
            final(self).wf(),
            final(self).spec_span() == old(self).spec_span(),
            final(frames).wf(),
            final(frames).spec_base() == old(frames).spec_base(),
            final(frames).spec_el_size() == old(frames).spec_el_size(),
            final(frames).spec_parent().spec_order() == old(frames).spec_parent().spec_order(),
            final(mem)@.len() == old(mem)@.len(),
            ({
                let i = entry_index(old(self).spec_span(), vaddr);
                let e = old(self).view_entries()[i];
                let v = old(frames).spec_parent()@;
                let start = first_free(v, size_order(1)) * pow2(old(frames).spec_el_size());
                if e.0 & PRESENT == PRESENT {
                    &&& table.addr() == e.0 & 0xFFFFF000
                    &&& final(self).view_entries() == old(self).view_entries()
                    &&& final(frames).spec_parent()@ == v
                    &&& final(mem)@ == old(mem)@
                } else {
                    &&& table.addr() == old(frames).spec_base() + start
                    &&& table.addr() + pow2(size_order(1)) * pow2(old(frames).spec_el_size())
                        <= old(frames).spec_base() + pow2(
                        old(frames).spec_parent().spec_order() + old(frames).spec_el_size(),
                    )
                    &&& final(frames).spec_parent()@ == claim(v, first_free(v, size_order(1)), size_order(1))
                    &&& final(self).view_entries() == old(self).view_entries().update(
                        i,
                        Page((table.addr() as u32) | flags),
                    )
                    &&& forall|j: int|
                        0 <= j < final(mem)@.len() ==> #[trigger] final(mem)@[j] == if start <= j
                            < start + pow2(size_order(1)) * pow2(old(frames).spec_el_size()) {
                            0u8
                        } else {
                            old(mem)@[j]
                        }
                }
            }),
            (final(self).view_entries(), final(frames).spec_parent()@, final(mem)@, table.addr())
                == fetch_spec(
                old(self).view_entries(),
                old(frames).spec_parent()@,
                old(mem)@,
                old(frames).spec_base(),
                old(frames).spec_el_size(),
                old(self).spec_span(),
                vaddr,
                flags,
            ),
            ({
                let i = entry_index(old(self).spec_span(), vaddr);
                let e2 = final(self).view_entries()[i];
                old(self).view_entries()[i].0 & PRESENT == PRESENT || flags & PRESENT == PRESENT
                    ==> e2.0 & PRESENT == PRESENT && (e2.0 & 0xFFFFF000) as nat == table.addr()
            }),
    {
        let entry = self.get(vaddr);
        if entry.is_present() {
            entry.physical()
        } else {
            let table = zero_alloc_frames(frames, 1, mem);
            proof {
                let a = pow2(size_order(1));
                let b = pow2(old(frames).spec_el_size());
                vstd::arithmetic::power2::lemma_pow2_pos(size_order(1));
                vstd::arithmetic::power2::lemma_pow2_pos(old(frames).spec_el_size());
                assert(a * b > 0) by (nonlinear_arith)
                    requires
                        a > 0,
                        b > 0,
                ;
            }
            self.set_addr(vaddr, table, flags);
            proof {
                let v = old(frames).spec_parent()@;
                let start = first_free(v, size_order(1)) * pow2(old(frames).spec_el_size());
                let f = fetch_spec(
                    old(self).view_entries(),
                    v,
                    old(mem)@,
                    old(frames).spec_base(),
                    old(frames).spec_el_size(),
                    old(self).spec_span(),
                    vaddr,
                    flags,
                );
                assert(mem@ =~= zero_bytes(
                    old(mem)@,
                    start as int,
                    (pow2(size_order(1)) * pow2(old(frames).spec_el_size())) as int,
                ));
                assert(f.3 == table.addr());
                assert(f.0 == self.view_entries());
                assert(f.2 == mem@);
                if flags & PRESENT == PRESENT {
                    let base = old(frames).spec_base();
                    let t = table.addr();
                    vstd::arithmetic::power2::lemma2_to64();
                    assert(t == base + first_free(v, size_order(1)) * 4096);
                    vstd::arithmetic::div_mod::lemma_fundamental_div_mod(base as int, 4096);
                    vstd::arithmetic::div_mod::lemma_mod_multiples_vanish(
                        (base / 4096 + first_free(v, size_order(1))) as int,
                        0,
                        4096,
                    );
                    assert(t == 4096 * (base / 4096 + first_free(v, size_order(1))));
                    assert(t % 4096 == 0);
                    lemma_entry_bits(t as u32, flags);
                }
            }
            table
        }
    }

    /// A copy of the directory for a new address space: the entries for
    /// the user half below 3 GiB (the first 768) are shared, the directory
    /// maps itself from its fresh, zeroed frame taken from `frames`, and every
    /// other entry is empty. Returns that frame and the new directory. `mem`
    /// holds the memory of the frame allocator, from its base on.
    #[verifier::rlimit(30)]
    pub fn clone(&self, frames: &mut Alloc, mem: &mut [u8]) -> (r: (Phys, Table))
        requires
            self.wf(),
            self.spec_span() == DIRECTORY_SPAN,
            old(frames).wf(),
            old(mem)@.len() == pow2(
                old(frames).spec_parent().spec_order() + old(frames).spec_el_size(),
            ),
            old(frames).spec_base() + pow2(
                old(frames).spec_parent().spec_order() + old(frames).spec_el_size(),
            ) <= u32::MAX + 1,
            exists|o: nat| #[trigger] free_block(old(frames).spec_parent()@, o, size_order(1)),
        ensures
            r.1.wf(),
            r.1.spec_span() == DIRECTORY_SPAN,
            forall|i: int|
                0 <= i < ENTRIES ==> #[trigger] r.1.view_entries()[i] == if i < USER_TABLES {
                    self.view_entries()[i]
                } else if i == ENTRIES - 1 {
                    Page((r.0.addr() as u32) | (PRESENT | RW))
                } else {
                    Page(0)
                },
            final(frames).wf(),
            final(frames).spec_base() == old(frames).spec_base(),
            final(frames).spec_el_size() == old(frames).spec_el_size(),
            final(frames).spec_parent().spec_order() == old(frames).spec_parent().spec_order(),
            final(mem)@.len() == old(mem)@.len(),
            ({
                let v = old(frames).spec_parent()@;
                let k = size_order(1);
                let e = pow2(old(frames).spec_el_size());
                let start = first_free(v, k) * e;
                &&& r.0.addr() == old(frames).spec_base() + start
                &&& final(frames).spec_parent()@ == claim(v, first_free(v, k), k)
                &&& forall|j: int|
                    0 <= j < final(mem)@.len() ==> #[trigger] final(mem)@[j] == if start <= j < start
                        + pow2(k) * e {
                        0u8
                    } else {
                        old(mem)@[j]
                    }
            }),
    {
        let dir_phys = zero_alloc_frames(frames, 1, mem);
        proof {
            let a = pow2(size_order(1));
            let b = pow2(old(frames).spec_el_size());
            vstd::arithmetic::power2::lemma_pow2_pos(size_order(1));
            vstd::arithmetic::power2::lemma_pow2_pos(old(frames).spec_el_size());
            assert(a * b > 0) by (nonlinear_arith)
                requires
                    a > 0,
                    b > 0,
            ;
        }
        let mut dir = Table::page_directory();
        dir.map_self(dir_phys);
        assert(entry_index(DIRECTORY_SPAN, DIR_VADDR) == ENTRIES - 1);
        let ghost self_page = Page((dir_phys.addr() as u32) | (PRESENT | RW));
        assert forall|j: int| 0 <= j < ENTRIES implies #[trigger] dir.view_entries()[j] == if j
            == ENTRIES - 1 {
            self_page
        } else {
            Page(0)
        } by {}
        let mut i: usize = 0;
        while i < USER_TABLES
            invariant
                i <= USER_TABLES,
                self.wf(),
                dir.wf(),
                dir.spec_span() == DIRECTORY_SPAN,
                forall|j: int|
                    0 <= j < ENTRIES ==> #[trigger] dir.view_entries()[j] == if j < i {
                        self.view_entries()[j]
                    } else if j == ENTRIES - 1 {
                        self_page
                    } else {
                        Page(0)
                    },
                self_page == Page((dir_phys.addr() as u32) | (PRESENT | RW)),
            decreases USER_TABLES - i,
        {
            let p = self.entries[i];
            dir.entries.set(i, p);
            i = i + 1;
        }
        (dir_phys, dir)
    }

    /// Maps the page at `vptr` to the frame `phys` with `flags`, for a
    /// directory whose page tables lie in `mem`, the memory of the frame
    /// allocator `frames` (4 KiB frames from its base on): the page table is
    /// fetched as `fetch_table` does, and its entry for `vptr` is stored in
    /// it, least significant byte first. Returns `vptr`. (The caller flushes
    /// the TLB entry of `vptr`.)
    #[verifier::rlimit(40)]
    pub fn set_page(&mut self, vptr: u32, phys: Phys, flags: Flags, frames: &mut Alloc, mem: &mut [u8]) -> (r: u32)
        requires
            old(self).wf(),
            old(self).spec_span() == DIRECTORY_SPAN,
            old(frames).wf(),
            old(frames).spec_el_size() == 12,
            old(frames).spec_base() % 4096 == 0,
            flags < 4096,
            old(mem)@.len() == pow2(old(frames).spec_parent().spec_order() + 12),
            old(frames).spec_base() + pow2(old(frames).spec_parent().spec_order() + 12) <= u32::MAX
                + 1,
            phys.addr() <= u32::MAX,
            table_ready(
                old(self).view_entries()[entry_index(DIRECTORY_SPAN, vptr)],
                old(frames).spec_parent()@,
                old(frames).spec_base(),
                old(mem)@.len(),
            ),
        ensures
            r == vptr,
            final(self).wf(),
            final(self).spec_span() == DIRECTORY_SPAN,
            final(frames).wf(),
            final(frames).spec_base() == old(frames).spec_base(),
            final(frames).spec_el_size() == old(frames).spec_el_size(),
            final(frames).spec_parent().spec_order() == old(frames).spec_parent().spec_order(),
            (final(self).view_entries(), final(frames).spec_parent()@, final(mem)@) == set_page_spec(
                old(self).view_entries(),
                old(frames).spec_parent()@,
                old(mem)@,
                old(frames).spec_base(),
                vptr,
                phys.addr(),
                flags,
            ),
    {
        let ghost v = old(frames).spec_parent()@;
        let ghost base = old(frames).spec_base();
        let ghost d = old(self).view_entries();
        let ghost m = old(mem)@;
        let ghost e = d[entry_index(DIRECTORY_SPAN, vptr)];
        let ghost t = table_frame(e, v, base);
        let ghost expected = set_page_spec(d, v, m, base, vptr, phys.addr(), flags);
        proof {
            vstd::arithmetic::power2::lemma2_to64();
            assert(size_order(1) == 0);
        }
        let table = self.fetch_table(vptr, flags, frames, mem);
        proof {
            assert(table.addr() == t);
            if e.0 & PRESENT != PRESENT {
                assert(mem@ =~= zero_bytes(m, t - base, 4096));
            }
        }
        let base_addr = frames.base();
        let index: usize = ((vptr / 4096) % 1024) as usize;
        let at: usize = (table.as_ptr() - base_addr) + 4 * index;
        store_word(mem, at, (phys.as_ptr() as u32) | flags);
        proof {
            assert(self.view_entries() == expected.0);
            assert(frames.spec_parent()@ == expected.1);
            assert(mem@ == expected.2);
        }
        vptr
    }

    /// Maps the page at `vptr` to a fresh frame taken from `frames`,
    /// present with `flags`; see `set_page`.
    pub fn map_frame(&mut self, vptr: u32, flags: Flags, frames: &mut Alloc, mem: &mut [u8])
        requires
            old(self).wf(),
            old(self).spec_span() == DIRECTORY_SPAN,
            old(frames).wf(),
            old(frames).spec_el_size() == 12,
            old(frames).spec_base() % 4096 == 0,
            flags < 4096,
            old(mem)@.len() == pow2(old(frames).spec_parent().spec_order() + 12),
            old(frames).spec_base() + pow2(old(frames).spec_parent().spec_order() + 12) <= u32::MAX
                + 1,
            map_frame_ok(
                old(self).view_entries(),
                old(frames).spec_parent()@,
                old(frames).spec_base(),
                old(mem)@.len(),
                vptr,
            ),
        ensures
            final(self).wf(),
            final(self).spec_span() == DIRECTORY_SPAN,
            final(frames).wf(),
            final(frames).spec_base() == old(frames).spec_base(),
            final(frames).spec_el_size() == old(frames).spec_el_size(),
            final(frames).spec_parent().spec_order() == old(frames).spec_parent().spec_order(),
            (final(self).view_entries(), final(frames).spec_parent()@, final(mem)@) == map_frame_spec(
                old(self).view_entries(),
                old(frames).spec_parent()@,
                old(mem)@,
                old(frames).spec_base(),
                vptr,
                flags,
            ),
    {
        proof {
            vstd::arithmetic::power2::lemma2_to64();
            assert(size_order(1) == 0);
            lemma_entry_bits(0, flags);
        }
        let frame = alloc_frames(frames, 1);
        self.set_page(vptr, frame, flags | PRESENT, frames, mem);
    }

    /// Maps `len` bytes from `page_ptr` on, page by page, each to a fresh
    /// frame taken from `frames`, present with `flags`, for the current
    /// directory, whose page tables lie in `mem`, the memory of `frames`.
    /// (For another directory, `map_into` enters the pages in it and in the
    /// current one.)
    #[verifier::rlimit(40)]
    pub fn map(&mut self, page_ptr: u32, len: u32, flags: Flags, frames: &mut Alloc, mem: &mut [u8])
        requires
            old(self).wf(),
            old(self).spec_span() == DIRECTORY_SPAN,
            old(frames).wf(),
            old(frames).spec_el_size() == 12,
            old(frames).spec_base() % 4096 == 0,
            flags < 4096,
            old(mem)@.len() == pow2(old(frames).spec_parent().spec_order() + 12),
            old(frames).spec_base() + pow2(old(frames).spec_parent().spec_order() + 12) <= u32::MAX
                + 1,
            page_ptr + len <= u32::MAX + 1,
            map_ok(
                old(self).view_entries(),
                old(frames).spec_parent()@,
                old(mem)@,
                old(frames).spec_base(),
                old(mem)@.len(),
                page_ptr as nat,
                (page_ptr + len) as nat,
                flags,
            ),
        ensures
            final(self).wf(),
            final(self).spec_span() == DIRECTORY_SPAN,
            final(frames).wf(),
            final(frames).spec_base() == old(frames).spec_base(),
            final(frames).spec_el_size() == old(frames).spec_el_size(),
            final(frames).spec_parent().spec_order() == old(frames).spec_parent().spec_order(),
            (final(self).view_entries(), final(frames).spec_parent()@, final(mem)@) == map_spec(
                old(self).view_entries(),
                old(frames).spec_parent()@,
                old(mem)@,
                old(frames).spec_base(),
                page_ptr as nat,
                (page_ptr + len) as nat,
                flags,
            ),
    {
        let ghost target = map_spec(
            old(self).view_entries(),
            old(frames).spec_parent()@,
            old(mem)@,
            old(frames).spec_base(),
            page_ptr as nat,
            (page_ptr + len) as nat,
            flags,
        );
        let ghost order = old(frames).spec_parent().spec_order();
        let ghost base = old(frames).spec_base();
        let mlen: usize = mem.len();
        let end: u64 = page_ptr as u64 + len as u64;
        let mut p: u64 = page_ptr as u64;
        proof {
            lemma_entry_bits(0, flags);
        }
        while p < end
            invariant
                self.wf(),
                self.spec_span() == DIRECTORY_SPAN,
                frames.wf(),
                frames.spec_el_size() == 12,
                frames.spec_base() == base,
                base % 4096 == 0,
                flags < 4096,
                flags | PRESENT < 4096,
                frames.spec_parent().spec_order() == order,
                mem@.len() == mlen,
                mlen == pow2(order + 12),
                base + pow2(order + 12) <= u32::MAX + 1,
                end <= u32::MAX + 1,
                map_ok(self.view_entries(), frames.spec_parent()@, mem@, base, mlen as nat, p as nat, end as nat, flags),
                map_spec(self.view_entries(), frames.spec_parent()@, mem@, base, p as nat, end as nat, flags) == target,
            decreases (if p < end { end - p } else { 0 }),
        {
            let ghost d0 = self.view_entries();
            let ghost v0 = frames.spec_parent()@;
            let ghost m0 = mem@;
            let ghost step = map_frame_spec(d0, v0, m0, base, p as u32, flags);
            assert(map_frame_ok(d0, v0, base, mlen as nat, p as u32) && map_ok(
                step.0,
                step.1,
                step.2,
                base,
                mlen as nat,
                (p + 4096) as nat,
                end as nat,
                flags,
            ));
            assert(map_spec(step.0, step.1, step.2, base, (p + 4096) as nat, end as nat, flags) == target);
            self.map_frame(p as u32, flags, frames, mem);
            p = p + 4096;
        }
    }

    /// Maps `len` bytes from `page_ptr` on, page by page, each to a fresh
    /// frame taken from `frames`, present with `flags`, in this directory
    /// and in `current`, the current one; both directories' page tables lie
    /// in `mem`, the memory of `frames`.
    #[verifier::rlimit(40)]
    pub fn map_into(
        &mut self,
        current: &mut Table,
        page_ptr: u32,
        len: u32,
        flags: Flags,
        frames: &mut Alloc,
        mem: &mut [u8],
    )
        requires
            old(self).wf(),
            old(self).spec_span() == DIRECTORY_SPAN,
            old(current).wf(),
            old(current).spec_span() == DIRECTORY_SPAN,
            old(frames).wf(),
            old(frames).spec_el_size() == 12,
            old(frames).spec_base() % 4096 == 0,
            flags < 4096,
            old(mem)@.len() == pow2(old(frames).spec_parent().spec_order() + 12),
            old(frames).spec_base() + pow2(old(frames).spec_parent().spec_order() + 12) <= u32::MAX
                + 1,
            page_ptr + len <= u32::MAX + 1,
            map_into_ok(
                old(self).view_entries(),
                old(current).view_entries(),
                old(frames).spec_parent()@,
                old(mem)@,
                old(frames).spec_base(),
                old(mem)@.len(),
                page_ptr as nat,
                (page_ptr + len) as nat,
                flags,
            ),
        ensures
            final(self).wf(),
            final(self).spec_span() == DIRECTORY_SPAN,
            final(current).wf(),
            final(current).spec_span() == DIRECTORY_SPAN,
            final(frames).wf(),
            final(frames).spec_base() == old(frames).spec_base(),
            final(frames).spec_el_size() == old(frames).spec_el_size(),
            final(frames).spec_parent().spec_order() == old(frames).spec_parent().spec_order(),
            (final(self).view_entries(), final(current).view_entries(), final(frames).spec_parent()@, final(mem)@)
                == map_into_spec(
                old(self).view_entries(),
                old(current).view_entries(),
                old(frames).spec_parent()@,
                old(mem)@,
                old(frames).spec_base(),
                page_ptr as nat,
                (page_ptr + len) as nat,
                flags,
            ),
    {
        let ghost target = map_into_spec(
            old(self).view_entries(),
            old(current).view_entries(),
            old(frames).spec_parent()@,
            old(mem)@,
            old(frames).spec_base(),
            page_ptr as nat,
            (page_ptr + len) as nat,
            flags,
        );
        let ghost order = old(frames).spec_parent().spec_order();
        let ghost base = old(frames).spec_base();
        let mlen: usize = mem.len();
        let end: u64 = page_ptr as u64 + len as u64;
        let mut p: u64 = page_ptr as u64;
        proof {
            vstd::arithmetic::power2::lemma2_to64();
            assert(size_order(1) == 0);
        }
        proof {
            lemma_entry_bits(0, flags);
        }
        while p < end
            invariant
                self.wf(),
                self.spec_span() == DIRECTORY_SPAN,
                current.wf(),
                current.spec_span() == DIRECTORY_SPAN,
                frames.wf(),
                frames.spec_el_size() == 12,
                frames.spec_base() == base,
                base % 4096 == 0,
                flags < 4096,
                flags | PRESENT < 4096,
                frames.spec_parent().spec_order() == order,
                mem@.len() == mlen,
                mlen == pow2(order + 12),
                base + pow2(order + 12) <= u32::MAX + 1,
                end <= u32::MAX + 1,
                size_order(1) == 0,
                pow2(12) == 4096,
                pow2(0) == 1,
                map_into_ok(
                    self.view_entries(),
                    current.view_entries(),
                    frames.spec_parent()@,
                    mem@,
                    base,
                    mlen as nat,
                    p as nat,
                    end as nat,
                    flags,
                ),
                map_into_spec(
                    self.view_entries(),
                    current.view_entries(),
                    frames.spec_parent()@,
                    mem@,
                    base,
                    p as nat,
                    end as nat,
                    flags,
                ) == target,
            decreases (if p < end { end - p } else { 0 }),
        {
            let ghost d0 = self.view_entries();
            let ghost c0 = current.view_entries();
            let ghost v0 = frames.spec_parent()@;
            let ghost m0 = mem@;
            let ghost f = first_free(v0, 0);
            let ghost s1 = set_page_spec(d0, claim(v0, f, 0), m0, base, p as u32, base + f * 4096, flags | PRESENT);
            let ghost s2 = set_page_spec(c0, s1.1, s1.2, base, p as u32, base + f * 4096, flags | PRESENT);
            assert(map_frame_ok(d0, v0, base, mlen as nat, p as u32));
            assert(table_ready(c0[entry_index(DIRECTORY_SPAN, p as u32)], s1.1, base, mlen as nat));
            assert(map_into_ok(s1.0, s2.0, s2.1, s2.2, base, mlen as nat, (p + 4096) as nat, end as nat, flags));
            assert(map_into_spec(s1.0, s2.0, s2.1, s2.2, base, (p + 4096) as nat, end as nat, flags) == target);
            let frame = alloc_frames(frames, 1);
            self.set_page(p as u32, frame, flags | PRESENT, frames, mem);
            current.set_page(p as u32, frame, flags | PRESENT, frames, mem);
            p = p + 4096;
        }
    }

    /// Makes the directory map itself at `DIR_VADDR`, given its own frame `this`.
    pub fn map_self(&mut self, this: Phys)
        requires
            old(self).wf(),
            this.addr() <= u32::MAX,
        ensures
            final(self).wf(),
            final(self).spec_span() == old(self).spec_span(),
            final(self).view_entries() == old(self).view_entries().update(
                entry_index(old(self).spec_span(), DIR_VADDR),
                Page((this.addr() as u32) | (PRESENT | RW)),
            ),
    {
        self.set(DIR_VADDR, Page::new(this, PRESENT | RW));
    }
}

/// An entry made for a 4 KiB-aligned frame with flags below 4096 gives back
/// that frame as its physical address, and contains exactly those flags.
pub proof fn law_page_frame_round_trip(addr: u32, flags: u32, f: u32)
    requires
        addr % 4096 == 0,
        flags < 4096,
    ensures
        (addr | flags) & 0xFFFFF000 == addr,
        ((addr | flags) & f == f && f < 4096) <==> (flags & f == f && f < 4096),
{
    assert((addr | flags) & 0xFFFFF000 == addr) by (bit_vector)
        requires
            addr % 4096 == 0,
            flags < 4096,
    ;
    assert(((addr | flags) & f == f && f < 4096) <==> (flags & f == f && f < 4096)) by (bit_vector)
        requires
            addr % 4096 == 0,
            flags < 4096,
    ;
}

/// The physical address that `vptr` translates to through the directory
/// entries `d` and the page tables in `m` (the frame allocator's memory from
/// `base`): through the directory entry, when present, to the page-table
/// entry, when present, to its frame plus the offset within the page.
/// `None` when an entry is missing or the table lies outside `m`.
pub open spec fn translate(d: Seq<Page>, m: Seq<u8>, base: nat, vptr: u32) -> Option<nat> {
    let e = d[entry_index(DIRECTORY_SPAN, vptr)];
    let t = (e.0 & 0xFFFFF000) as nat;
    let at = t - base + 4 * ((vptr / 4096) % 1024);
    if e.0 & PRESENT == PRESENT && base <= t && at + 4 <= m.len() {
        let w = le(m.subrange(at, at + 4));
        if w % 2 == 1 {
            Some(((w / 4096) * 4096 + vptr % 4096) as nat)
        } else {
            None
        }
    } else {
        None
    }
}

/// An entry for the 4 KiB-aligned frame `x` with flags below 4096 plus
/// the present bit names `x` and is present.
proof fn lemma_entry_bits(x: u32, flags: u32)
    by (bit_vector)
    requires
        x % 4096 == 0,
        flags < 4096,
    ensures
        (x | (flags | 1)) & 0xFFFFF000 == x,
        (x | (flags | 1)) & 1 == 1,
        (x | (flags | 1)) % 2 == 1,
        ((x | (flags | 1)) / 4096) * 4096 == x,
        flags & 1 == 1 ==> flags | 1 == flags,
        flags | 1 < 4096,
{
}

proof fn lemma_le_word(m: Seq<u8>, at: int, v: u32)
    requires
        0 <= at,
        at + 4 <= m.len(),
    ensures
        le(store_u32(m, at, v).subrange(at, at + 4)) == v,
{
    let s = store_u32(m, at, v).subrange(at, at + 4);
    assert(pow256(0) == 1 && pow256(1) == 0x100 && pow256(2) == 0x10000 && pow256(3) == 0x100_0000);
    reveal_with_fuel(le, 5);
    assert(s.drop_first().drop_first().drop_first().drop_first() =~= Seq::<u8>::empty());
    let st = store_u32(m, at, v);
    assert(st[at] == ((v as nat / pow256(0)) % 256) as u8);
    assert(st[at + 1] == ((v as nat / pow256(1)) % 256) as u8);
    assert(st[at + 2] == ((v as nat / pow256(2)) % 256) as u8);
    assert(st[at + 3] == ((v as nat / pow256(3)) % 256) as u8);
    assert(s[0] == st[at] && s[1] == st[at + 1] && s[2] == st[at + 2] && s[3] == st[at + 3]);
    assert(s[0] == v % 256 && s[1] == (v / 0x100) % 256 && s[2] == (v / 0x10000) % 256 && s[3] == (v
        / 0x100_0000) % 256);
    assert(v == v % 256 + 256 * ((v / 0x100) % 256 + 256 * ((v / 0x10000) % 256 + 256 * ((v
        / 0x100_0000) % 256)))) by (bit_vector);
}

/// After `map_frame` maps `vptr` to a fresh frame, `vptr` translates to
/// that frame (the first free one), at the same offset within the page.
/// Flags are taken below 4096, where they leave the frame address alone;
/// the frame allocator's 4 KiB frames, from the 4 KiB-aligned `base`, lie
/// below 4 GiB and are the bytes of `m`.
#[verifier::rlimit(60)]
pub proof fn law_map_frame_translates(
    d: Seq<Page>,
    v: Blocks,
    m: Seq<u8>,
    base: nat,
    vptr: u32,
    flags: u32,
)
    requires
        d.len() == ENTRIES,
        m.len() == v.len() * 4096,
        base % 4096 == 0,
        base + m.len() <= u32::MAX + 1,
        flags < 4096,
        map_frame_ok(d, v, base, m.len(), vptr),
    ensures
        ({
            let s = map_frame_spec(d, v, m, base, vptr, flags);
            translate(s.0, s.2, base, vptr) == Some((base + first_free(v, 0) * 4096 + vptr % 4096) as nat)
        }),
{
    let w0 = choose|o: nat| #[trigger] free_block(v, o, 0);
    lemma_first_free_exists(v, w0, 0);
    vstd::arithmetic::power2::lemma2_to64();
    let o = first_free(v, 0);
    let v1 = claim(v, o, 0);
    let f = base + o * 4096;
    let fl = flags | PRESENT;
    let i = entry_index(DIRECTORY_SPAN, vptr);
    let e = d[i];
    assert(v1.len() == v.len());
    assert(o < v.len());
    assert(f + 4096 <= base + m.len());
    assert(0 <= i < 1024);
    let t = table_frame(e, v1, base);
    if e.0 & PRESENT != PRESENT {
        let w1 = choose|o2: nat| #[trigger] free_block(v1, o2, 0);
        lemma_first_free_exists(v1, w1, 0);
        assert(first_free(v1, 0) < v1.len());
        assert(t + 4096 <= base + m.len());
    }
    let s = map_frame_spec(d, v, m, base, vptr, flags);
    let at = t - base + 4 * ((vptr / 4096) % 1024);
    let val = (f as u32) | fl;
    assert(f % 4096 == 0);
    assert((f as u32) as nat == f);
    let fu = f as u32;
    lemma_entry_bits(fu, flags);
    if e.0 & PRESENT != PRESENT {
        let tu = t as u32;
        assert(t % 4096 == 0);
        let de = tu | fl;
        lemma_entry_bits(tu, flags);
        assert(s.0[i] == Page(de));
        lemma_le_word(zero_bytes(m, t - base, 4096), at, val);
    } else {
        lemma_le_word(m, at, val);
    }
}

/// After `fetch_table` with present `flags` below 4096, on a frame
/// allocator of 4 KiB frames from a 4 KiB-aligned base below 4 GiB, the
/// directory entry for `vaddr` is present and names the table returned; a
/// second call for the same address returns that table and changes nothing.
pub proof fn law_fetch_table_present_and_idempotent(
    d: Seq<Page>,
    v: Blocks,
    m: Seq<u8>,
    base: nat,
    span: u32,
    vaddr: u32,
    flags: u32,
)
    requires
        span > 0,
        d.len() == ENTRIES,
        flags & PRESENT == PRESENT,
        flags < 4096,
        base % 4096 == 0,
        base + v.len() * 4096 <= u32::MAX + 1,
        d[entry_index(span, vaddr)].0 & PRESENT != PRESENT ==> exists|o: nat|
            #[trigger] free_block(v, o, size_order(1)),
    ensures
        ({
            let s = fetch_spec(d, v, m, base, 12, span, vaddr, flags);
            let e = s.0[entry_index(span, vaddr)];
            &&& e.0 & PRESENT == PRESENT
            &&& (e.0 & 0xFFFFF000) as nat == s.3
            &&& fetch_spec(s.0, s.1, s.2, base, 12, span, vaddr, flags) == s
        }),
{
    vstd::arithmetic::power2::lemma2_to64();
    let i = entry_index(span, vaddr);
    assert(0 <= i < ENTRIES);
    assert(size_order(1) == 0);
    if d[i].0 & PRESENT != PRESENT {
        let w = choose|o: nat| #[trigger] free_block(v, o, size_order(1));
        lemma_first_free_exists(v, w, 0);
        let o = first_free(v, 0);
        let t = base + o * 4096;
        assert(o < v.len());
        assert(t + 4096 <= base + v.len() * 4096);
        assert(t % 4096 == 0);
        let tu = t as u32;
        lemma_entry_bits(tu, flags);
        assert(flags | 1 == flags);
    }
}

} // verus!
