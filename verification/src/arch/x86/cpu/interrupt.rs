//! The interrupt descriptor table and the IRQ mask.
use vstd::prelude::*;
use crate::arch::x86::cpu::exception::Fault;
use crate::arch::x86::cpu::idt::{IdtEntry, INTR_GATE, PRESENT};
use crate::arch::x86::drivers::pic;
use crate::arch::x86::io::{PortWrite, outb, outw};

verus! {

/// An interrupt source.
pub enum Int {
    Fault(Fault),
}

/// The interrupt descriptor table (256 gates) and the PIC's IRQ mask.
pub struct Table {
    table: Vec<IdtEntry>,
    mask: u16,
}

impl Table {
    pub closed spec fn entries(&self) -> Seq<IdtEntry> {
        self.table@
    }

    pub closed spec fn spec_mask(&self) -> u16 {
        self.mask
    }

    /// A table of 256 zeroed gates with every IRQ masked.
    pub fn new() -> (t: Table)
        ensures
            t.entries().len() == 256,
            forall|i: int| 0 <= i < 256 ==> #[trigger] t.entries()[i] == IdtEntry::spec_new(0, 0, 0),
            t.spec_mask() == 0xffff,
    {
        let mut table: Vec<IdtEntry> = Vec::new();
        let mut i: usize = 0;
        while i < 256
            invariant
                i <= 256,
                table@.len() == i,
                forall|j: int| 0 <= j < i ==> #[trigger] table@[j] == IdtEntry::spec_new(0, 0, 0),
            decreases 256 - i,
        {
            table.push(IdtEntry::new(0, 0, 0));
            i = i + 1;
        }
        Table { table, mask: 0xffff }
    }

    /// Descriptor of vector `i`.
    pub fn entry(&self, i: usize) -> (e: &IdtEntry)
        requires
            i < self.entries().len(),
        ensures
            *e == self.entries()[i as int],
    {
        &self.table[i]
    }

    /// The IRQ mask: a set bit keeps its IRQ line masked.
    pub fn irq_mask(&self) -> (m: u16)
        ensures
            m == self.spec_mask(),
    {
        self.mask
    }

    /// Installs the interrupt gate to `isr` (through the kernel code
    /// segment) for vector `irq`, unmasks IRQ line `irq & 15`, and returns
    /// the writes that send the new mask to the PIC.
    pub fn enable_maskable(&mut self, irq: usize, isr: u32) -> (ws: Vec<PortWrite>)
        requires
            irq < old(self).entries().len(),
        ensures
            final(self).entries() == old(self).entries().update(
                irq as int,
                IdtEntry::spec_new(isr, 1u16 << 3, INTR_GATE | PRESENT),
            ),
            final(self).spec_mask() == old(self).spec_mask() & !(1u16 << (irq % 16) as u16),
            ws@ == seq![
                outb(0x21, (final(self).spec_mask() % 0x100) as u8),
                outb(0xA1, (final(self).spec_mask() / 0x100) as u8),
            ],
    {
        let e = IdtEntry::new(isr, 1 << 3, INTR_GATE | PRESENT);
        self.table.set(irq, e);
        proof {
            assert(irq & 0b1111 == irq % 16) by (bit_vector);
        }
        self.mask = self.mask & !(1u16 << ((irq & 0b1111) as u16));
        pic::mask(self.mask)
    }

    /// Installs the interrupt gate for fault `val` to a stub stored at
    /// address `at` that jumps to `handler`; `code` tells whether the
    /// processor pushes an error code for the fault. Returns the stub, for
    /// the caller to store at `at`.
    pub fn set_isr(&mut self, val: Fault, code: bool, at: u32, handler: u32) -> (isr: Isr)
        requires
            old(self).entries().len() == 256,
        ensures
            final(self).entries() == old(self).entries().update(
                val.spec_vector() as int,
                IdtEntry::spec_new(at, 1u16 << 3, INTR_GATE | PRESENT),
            ),
            final(self).spec_mask() == old(self).spec_mask(),
            isr.push_dummy == (if code { 0x90u8 } else { 0x50u8 }),
            isr.push == 0x6a,
            isr.value == Int::Fault(val),
            isr.jmp == 0xe9,
            isr.rel as int == jump_offset(at, handler),
    {
        let v = val.vector();
        let mut isr = Isr::new(Int::Fault(val), code);
        let e = isr.idt_entry(at, handler);
        self.table.set(v as usize, e);
        isr
    }

    /// The PIC writes that go with loading the table: the remapping
    /// sequence, then the IRQ mask. Loading the table register and enabling
    /// interrupts are left to the caller.
    pub fn load(&self) -> (ws: Vec<PortWrite>)
        ensures
            ws@ == seq![
                outw(0x20, 0x11), outw(0xA0, 0x11),
                outw(0x21, 0x20), outw(0xA1, 0x28),
                outw(0x21, 4), outw(0xA1, 2),
                outw(0x21, 1), outw(0xA1, 1),
                outb(0x21, (self.spec_mask() % 0x100) as u8),
                outb(0xA1, (self.spec_mask() / 0x100) as u8),
            ],
    {
        let mut ws = pic::remap();
        let mut m = pic::mask(self.mask);
        ws.append(&mut m);
        proof {
            assert(ws@ =~= seq![
                outw(0x20, 0x11), outw(0xA0, 0x11),
                outw(0x21, 0x20), outw(0xA1, 0x28),
                outw(0x21, 4), outw(0xA1, 2),
                outw(0x21, 1), outw(0xA1, 1),
                outb(0x21, (self.spec_mask() % 0x100) as u8),
                outb(0xA1, (self.spec_mask() / 0x100) as u8),
            ]);
        }
        ws
    }
}

/// Machine code of an interrupt stub: `push eax` (or `nop` for exceptions
/// that push an error code), `push byte <vector>`, `jmp rel32`.
pub struct Isr {
    pub push_dummy: u8,
    pub push: u8,
    pub value: Int,
    pub jmp: u8,
    pub rel: i32,
}

impl Isr {
    /// The stub for interrupt `val`; `code` tells whether the processor
    /// pushes an error code for it.
    pub fn new(val: Int, code: bool) -> (i: Isr)
        ensures
            i.push_dummy == (if code { 0x90u8 } else { 0x50u8 }),
            i.push == 0x6a,
            i.value == val,
            i.jmp == 0xe9,
            i.rel == -5,
    {
        Isr { push_dummy: if code { 0x90 } else { 0x50 }, push: 0x6a, value: val, jmp: 0xe9, rel: -5 }
    }

    /// Points the jump of the stub, which is stored at address `at` and is
    /// 8 bytes long, to `handler`, and returns the interrupt gate (through
    /// the kernel code segment) that enters the stub.
    pub fn idt_entry(&mut self, at: u32, handler: u32) -> (e: IdtEntry)
        ensures
            final(self).push_dummy == old(self).push_dummy,
            final(self).push == old(self).push,
            final(self).value == old(self).value,
            final(self).jmp == old(self).jmp,
            final(self).rel as int == jump_offset(at, handler),
            e == IdtEntry::spec_new(at, 1u16 << 3, INTR_GATE | PRESENT),
    {
        let target = handler.wrapping_sub(at.wrapping_add(8));
        let rel = target as i32;
        assert(rel as int == (if target <= 0x7fff_ffff {
            target as int
        } else {
            target as int - 0x1_0000_0000
        })) by (bit_vector)
            requires
                rel == target as i32,
        ;
        self.rel = rel;
        IdtEntry::new(at, 1 << 3, INTR_GATE | PRESENT)
    }
}

/// The displacement of a `jmp rel32` ending at `at + 8` to `handler`, taken
/// modulo 2^32 into the range of an `i32`.
pub open spec fn jump_offset(at: u32, handler: u32) -> int {
    let d = (handler as int - at as int - 8) % 0x1_0000_0000;
    if d <= 0x7fff_ffff {
        d
    } else {
        d - 0x1_0000_0000
    }
}

/// Installing the breakpoint handler with `set_isr` changes exactly IDT
/// entry 3, and installing the page-fault handler exactly entry 14: the
/// gate stored for a fault lands in the slot of its x86 exception number.
pub proof fn law_set_isr_slots(before: Seq<IdtEntry>, e: IdtEntry, i: int)
    requires
        before.len() == 256,
        0 <= i < 256,
    ensures
        before.update(Fault::BREAKPOINT.spec_vector() as int, e)[i] == if i == 3 {
            e
        } else {
            before[i]
        },
        before.update(Fault::PAGE_FAULT.spec_vector() as int, e)[i] == if i == 14 {
            e
        } else {
            before[i]
        },
{
}

} // verus!
