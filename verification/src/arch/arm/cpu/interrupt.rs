//! The ARM exception vector table.
use vstd::prelude::*;

verus! {

/// Exceptions, by the vector that serves them.
pub enum Int {
    Reset,
    /// In ARM mode, an undefined opcode is used as a breakpoint.
    Undef,
    /// Software interrupt.
    SWI,
    PrefetchAbort,
    DataAbort,
    IRQ,
    FIQ,
}

impl Int {
    pub open spec fn spec_vector(self) -> u8 {
        match self {
            Int::Reset => 0,
            Int::Undef => 1,
            Int::SWI => 2,
            Int::PrefetchAbort => 3,
            Int::DataAbort => 4,
            Int::IRQ => 6,
            Int::FIQ => 7,
        }
    }

    /// Index of the exception's vector.
    pub fn vector(&self) -> (v: u8)
        ensures
            v == self.spec_vector(),
    {
        match self {
            Int::Reset => 0,
            Int::Undef => 1,
            Int::SWI => 2,
            Int::PrefetchAbort => 3,
            Int::DataAbort => 4,
            Int::IRQ => 6,
            Int::FIQ => 7,
        }
    }
}

/// `x - y` modulo 2^32.
pub open spec fn sub_wrap(x: u32, y: u32) -> u32 {
    if x >= y { (x - y) as u32 } else { (x + 0x1_0000_0000 - y) as u32 }
}

/// The `b` instruction that jumps `rel` bytes ahead of its own address.
pub open spec fn spec_branch(rel: u32) -> u32 {
    0xea000000u32 | ((sub_wrap(rel, 8) / 4) % 0x100_0000) as u32
}

/// Encodes `b` to the address `rel` bytes after the instruction (the
/// offset is counted from the instruction's address plus 8, in words).
pub fn branch(rel: u32) -> (i: u32)
    ensures
        i == spec_branch(rel),
{
    let d = rel.wrapping_sub(8);
    proof {
        assert((d >> 2) & 0xffffff == (d / 4) % 0x100_0000) by (bit_vector);
    }
    0xea000000 | ((d >> 2) & 0xffffff)
}

/// Words of the vector table at address 0.
pub const VECTORS: usize = 10;

/// The vector table: one instruction per exception.
pub struct Table {
    words: Vec<u32>,
}

impl Table {
    pub closed spec fn view_words(&self) -> Seq<u32> {
        self.words@
    }

    /// A table of zero words.
    pub fn new() -> (t: Table)
        ensures
            t.view_words() == Seq::new(VECTORS as nat, |i: int| 0u32),
    {
        let mut words: Vec<u32> = Vec::new();
        let mut i: usize = 0;
        while i < VECTORS
            invariant
                i <= VECTORS,
                words@ == Seq::new(i as nat, |j: int| 0u32),
            decreases VECTORS - i,
        {
            words.push(0);
            i = i + 1;
        }
        Table { words }
    }

    /// The instruction in vector `i`.
    pub fn word(&self, i: usize) -> (w: u32)
        requires
            i < self.view_words().len(),
        ensures
            w == self.view_words()[i as int],
    {
        self.words[i]
    }

    fn set_word(&mut self, vector: u8, instruction: u32)
        requires
            vector < old(self).view_words().len(),
        ensures
            final(self).view_words() == old(self).view_words().update(vector as int, instruction),
    {
        self.words.set(vector as usize, instruction);
    }

    /// Installs a branch to the handler at address `isr` in the vector of `which`.
    pub fn enable(&mut self, which: Int, isr: u32)
        requires
            old(self).view_words().len() == VECTORS,
        ensures
            final(self).view_words() == old(self).view_words().update(
                which.spec_vector() as int,
                spec_branch(sub_wrap(isr, (which.spec_vector() * 4) as u32)),
            ),
    {
        let vector: u8 = which.vector();
        let rel = isr.wrapping_sub(vector as u32 * 4);
        self.set_word(vector, branch(rel));
    }

    /// Makes every vector loop on itself, then installs the reset handler
    /// `start` and the breakpoint handler `debug`.
    pub fn load(&mut self, start: u32, debug: u32)
        requires
            old(self).view_words().len() == VECTORS,
        ensures
            final(self).view_words() == Seq::new(VECTORS as nat, |i: int| spec_branch(0)).update(
                0,
                spec_branch(start),
            ).update(1, spec_branch(sub_wrap(debug, 4))),
    {
        let mut i: u8 = 0;
        while i < 10
            invariant
                i <= 10,
                self.view_words().len() == VECTORS,
                forall|j: int| 0 <= j < i ==> #[trigger] self.view_words()[j] == spec_branch(0),
            decreases 10 - i,
        {
            // make every handler loop indefinitely
            self.set_word(i, branch(0));
            i = i + 1;
        }
        self.enable(Int::Reset, start);
        // breakpoints use an UND opcode to trigger UNDEF.
        self.enable(Int::Undef, debug);
        proof {
            assert(self.view_words() =~= Seq::new(VECTORS as nat, |i: int| spec_branch(0)).update(
                0,
                spec_branch(start),
            ).update(1, spec_branch(sub_wrap(debug, 4))));
        }
    }
}

/// Each exception's vector is its architectural slot, at four times its
/// index in the table: reset at 0x00, undefined instruction 0x04, software
/// interrupt 0x08, prefetch abort 0x0C, data abort 0x10, IRQ 0x18 and FIQ
/// 0x1C. No two exceptions share a slot and none uses the reserved slot at
/// 0x14.
pub proof fn law_vector_slots(i: Int, j: Int)
    ensures
        i != j ==> i.spec_vector() != j.spec_vector(),
        i.spec_vector() < 8 && i.spec_vector() != 5,
        Int::Reset.spec_vector() * 4 == 0x00,
        Int::Undef.spec_vector() * 4 == 0x04,
        Int::SWI.spec_vector() * 4 == 0x08,
        Int::PrefetchAbort.spec_vector() * 4 == 0x0C,
        Int::DataAbort.spec_vector() * 4 == 0x10,
        Int::IRQ.spec_vector() * 4 == 0x18,
        Int::FIQ.spec_vector() * 4 == 0x1C,
{
}

/// Enabling the data-abort handler at `isr` changes word 4 of the vector
/// table, the slot at 0x10, and only it: it becomes the branch from 0x10
/// to `isr`.
pub proof fn law_enable_data_abort(before: Seq<u32>, isr: u32, k: int)
    requires
        before.len() == VECTORS,
        0 <= k < VECTORS,
    ensures
        before.update(
            Int::DataAbort.spec_vector() as int,
            spec_branch(sub_wrap(isr, (Int::DataAbort.spec_vector() * 4) as u32)),
        )[k] == if k == 4 {
            spec_branch(sub_wrap(isr, 0x10))
        } else {
            before[k]
        },
{
}

} // verus!
