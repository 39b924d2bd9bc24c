//! Physical frames, handed out by a buddy allocator over 4 KiB elements.
use vstd::prelude::*;
use vstd::arithmetic::power2::pow2;
use crate::kernel::mm::allocator::{
    Alloc, Allocator, free_block, size_order, first_free, claim, released, lemma_free_block_answers,
    answers,
};

verus! {

/// A physical address.
#[derive(Clone, Copy)]
pub struct Phys {
    ptr: usize,
}

impl Phys {
    pub closed spec fn addr(&self) -> nat {
        self.ptr as nat
    }

    /// The physical address `offset`.
    pub fn at(offset: u32) -> (p: Phys)
        ensures
            p.addr() == offset,
    {
        Phys { ptr: offset as usize }
    }

    /// The null address.
    pub fn null() -> (p: Phys)
        ensures
            p.addr() == 0,
    {
        Phys { ptr: 0 }
    }

    /// The address is null.
    pub fn is_null(&self) -> (b: bool)
        ensures
            b == (self.addr() == 0),
    {
        self.ptr == 0
    }

    /// The address as an unsigned number.
    pub fn to_uint(&self) -> (a: usize)
        ensures
            a == self.addr(),
    {
        self.ptr
    }

    /// The address, or `None` when it is null.
    pub fn to_option(&self) -> (o: Option<usize>)
        ensures
            o == (if self.addr() == 0 { None } else { Some(self.addr() as usize) }),
    {
        if self.ptr == 0 {
            None
        } else {
            Some(self.ptr)
        }
    }

    /// The address as a plain number.
    pub fn as_ptr(&self) -> (a: usize)
        ensures
            a == self.addr(),
    {
        self.ptr
    }

    /// The address as a 32-bit number; addresses above 4 GiB are cut to
    /// their low 32 bits.
    pub fn offset(&self) -> (o: u32)
        ensures
            o == self.addr() % 0x1_0000_0000,
    {
        (self.ptr as u64 % 0x1_0000_0000) as u32
    }
}

/// Allocates a block of at least `count` frames; the frame allocator must
/// have such a block free.
pub fn alloc_frames(frames: &mut Alloc, count: usize) -> (p: Phys)
    requires
        old(frames).wf(),
        exists|o: nat| #[trigger] free_block(old(frames).spec_parent()@, o, size_order(count as nat)),
    ensures
        final(frames).wf(),
        final(frames).spec_base() == old(frames).spec_base(),
        final(frames).spec_el_size() == old(frames).spec_el_size(),
        p.addr() == old(frames).spec_base() + first_free(
            old(frames).spec_parent()@,
            size_order(count as nat),
        ) * pow2(old(frames).spec_el_size()),
        final(frames).spec_parent().spec_order() == old(frames).spec_parent().spec_order(),
        p.addr() + pow2(size_order(count as nat)) * pow2(old(frames).spec_el_size())
            <= old(frames).spec_base() + pow2(
            old(frames).spec_parent().spec_order() + old(frames).spec_el_size(),
        ),
        final(frames).spec_parent()@ == claim(
            old(frames).spec_parent()@,
            first_free(old(frames).spec_parent()@, size_order(count as nat)),
            size_order(count as nat),
        ),
{
    assert(answers(frames.spec_parent()@, frames.spec_parent().spec_order(), count as nat)) by {
        let v = frames.spec_parent()@;
        let o = choose|o: nat| #[trigger] free_block(v, o, size_order(count as nat));
        frames.spec_parent().lemma_view_len();
        lemma_free_block_answers(v, frames.spec_parent().spec_order(), count as nat, o);
    }
    let (ptr, _size) = frames.allocate(count);
    Phys { ptr }
}

/// `alloc_frames`, with the frames' bytes set to zero. `mem` holds the
/// memory of the frame allocator, from its base on.
#[verifier::rlimit(50)]
pub fn zero_alloc_frames(frames: &mut Alloc, count: usize, mem: &mut [u8]) -> (p: Phys)
    requires
        old(frames).wf(),
        old(mem)@.len() == pow2(
            old(frames).spec_parent().spec_order() + old(frames).spec_el_size(),
        ),
        exists|o: nat| #[trigger] free_block(old(frames).spec_parent()@, o, size_order(count as nat)),
    ensures
        final(frames).wf(),
        final(frames).spec_base() == old(frames).spec_base(),
        final(frames).spec_el_size() == old(frames).spec_el_size(),
        final(frames).spec_parent().spec_order() == old(frames).spec_parent().spec_order(),
        ({
            let k = size_order(count as nat);
            let v = old(frames).spec_parent()@;
            let e = pow2(old(frames).spec_el_size());
            let start = first_free(v, k) * e;
            &&& p.addr() == old(frames).spec_base() + start
            &&& p.addr() + pow2(k) * e <= old(frames).spec_base() + pow2(
                old(frames).spec_parent().spec_order() + old(frames).spec_el_size(),
            )
            &&& final(frames).spec_parent()@ == claim(v, first_free(v, k), k)
            &&& final(mem)@.len() == old(mem)@.len()
            &&& forall|i: int|
                0 <= i < final(mem)@.len() ==> #[trigger] final(mem)@[i] == if start <= i < start
                    + pow2(k) * e {
                    0u8
                } else {
                    old(mem)@[i]
                }
        }),
{
    let ghost v = old(frames).spec_parent()@;
    let ghost k = size_order(count as nat);
    let ghost e = pow2(old(frames).spec_el_size());
    assert(answers(frames.spec_parent()@, frames.spec_parent().spec_order(), count as nat)) by {
        let v = frames.spec_parent()@;
        let o = choose|o: nat| #[trigger] free_block(v, o, size_order(count as nat));
        frames.spec_parent().lemma_view_len();
        lemma_free_block_answers(v, frames.spec_parent().spec_order(), count as nat, o);
    }
    let r = frames.zero_alloc(count, mem);
    assert(r.0 - old(frames).spec_base() == first_free(v, k) * e);
    assert(r.1 == pow2(k) * e);
    Phys { ptr: r.0 }
}

/// Gives back the block of frames that holds `ptr`.
pub fn free_frames(frames: &mut Alloc, ptr: Phys)
    requires
        old(frames).wf(),
    ensures
        final(frames).wf(),
        final(frames).spec_base() == old(frames).spec_base(),
        final(frames).spec_el_size() == old(frames).spec_el_size(),
        final(frames).spec_parent().spec_order() == old(frames).spec_parent().spec_order(),
        final(frames).spec_parent()@ == released(*old(frames), ptr.addr()),
{
    frames.free(ptr.as_ptr());
}

} // verus!
