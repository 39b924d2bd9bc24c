//! The kernel heap: byte-granular blocks from a buddy allocator.
use vstd::prelude::*;
use vstd::arithmetic::power2::pow2;
use crate::kernel::mm::allocator::{
    Alloc, Allocator, free_block, size_order, first_free, claim, released,
    lemma_free_block_answers, answers,
};

verus! {

/// Allocates a block of at least `size` elements (bytes, in a heap of
/// one-byte elements) and returns its address; the heap must have such a
/// block free.
pub fn malloc_raw(heap: &mut Alloc, size: usize) -> (p: usize)
    requires
        old(heap).wf(),
        exists|o: nat| #[trigger] free_block(old(heap).spec_parent()@, o, size_order(size as nat)),
    ensures
        final(heap).wf(),
        final(heap).spec_base() == old(heap).spec_base(),
        final(heap).spec_el_size() == old(heap).spec_el_size(),
        final(heap).spec_parent().spec_order() == old(heap).spec_parent().spec_order(),
        p == old(heap).spec_base() + first_free(old(heap).spec_parent()@, size_order(size as nat))
            * pow2(old(heap).spec_el_size()),
        final(heap).spec_parent()@ == claim(
            old(heap).spec_parent()@,
            first_free(old(heap).spec_parent()@, size_order(size as nat)),
            size_order(size as nat),
        ),
{
    assert(answers(heap.spec_parent()@, heap.spec_parent().spec_order(), size as nat)) by {
        let v = heap.spec_parent()@;
        let o = choose|o: nat| #[trigger] free_block(v, o, size_order(size as nat));
        heap.spec_parent().lemma_view_len();
        lemma_free_block_answers(v, heap.spec_parent().spec_order(), size as nat, o);
    }
    let (ptr, _size) = heap.allocate(size);
    ptr
}

/// Gives back the heap block that holds address `ptr`.
pub fn free(heap: &mut Alloc, ptr: usize)
    requires
        old(heap).wf(),
    ensures
        final(heap).wf(),
        final(heap).spec_base() == old(heap).spec_base(),
        final(heap).spec_el_size() == old(heap).spec_el_size(),
        final(heap).spec_parent().spec_order() == old(heap).spec_parent().spec_order(),
        final(heap).spec_parent()@ == released(*old(heap), ptr as nat),
{
    heap.free(ptr);
}

/// Allocates room for `count` values of type `T`, counted in bytes as
/// elements, and returns its address; the byte count must fit in a `usize`
/// and the heap must have a block of that many elements free.
pub fn allocate<T>(heap: &mut Alloc, count: usize) -> (p: usize)
    requires
        old(heap).wf(),
        count as nat * vstd::layout::size_of::<T>() <= usize::MAX,
        exists|o: nat|
            #[trigger] free_block(
                old(heap).spec_parent()@,
                o,
                size_order(count as nat * vstd::layout::size_of::<T>()),
            ),
    ensures
        final(heap).wf(),
        final(heap).spec_base() == old(heap).spec_base(),
        final(heap).spec_el_size() == old(heap).spec_el_size(),
        final(heap).spec_parent().spec_order() == old(heap).spec_parent().spec_order(),
        ({
            let k = size_order(count as nat * vstd::layout::size_of::<T>());
            let v = old(heap).spec_parent()@;
            &&& p == old(heap).spec_base() + first_free(v, k) * pow2(old(heap).spec_el_size())
            &&& final(heap).spec_parent()@ == claim(v, first_free(v, k), k)
        }),
{
    let size = count * core::mem::size_of::<T>();
    malloc_raw(heap, size)
}

/// `allocate`, with the handed-out bytes set to zero. `mem` holds the heap's
/// memory, from its base on.
#[verifier::rlimit(50)]
pub fn zero_alloc<T>(heap: &mut Alloc, count: usize, mem: &mut [u8]) -> (p: usize)
    requires
        old(heap).wf(),
        old(mem)@.len() == pow2(old(heap).spec_parent().spec_order() + old(heap).spec_el_size()),
        count as nat * vstd::layout::size_of::<T>() <= usize::MAX,
        exists|o: nat|
            #[trigger] free_block(
                old(heap).spec_parent()@,
                o,
                size_order(count as nat * vstd::layout::size_of::<T>()),
            ),
    ensures
        final(heap).wf(),
        final(heap).spec_base() == old(heap).spec_base(),
        final(heap).spec_el_size() == old(heap).spec_el_size(),
        final(heap).spec_parent().spec_order() == old(heap).spec_parent().spec_order(),
        ({
            let k = size_order(count as nat * vstd::layout::size_of::<T>());
            let v = old(heap).spec_parent()@;
            let e = pow2(old(heap).spec_el_size());
            let start = first_free(v, k) * e;
            &&& p == old(heap).spec_base() + start
            &&& final(heap).spec_parent()@ == claim(v, first_free(v, k), k)
            &&& final(mem)@.len() == old(mem)@.len()
            &&& forall|i: int|
                0 <= i < final(mem)@.len() ==> #[trigger] final(mem)@[i] == if start <= i < start
                    + pow2(k) * e {
                    0u8
                } else {
                    old(mem)@[i]
                }
        }),
{
    let size = count * core::mem::size_of::<T>();
    let ghost v = old(heap).spec_parent()@;
    let ghost k = size_order(size as nat);
    let ghost e = pow2(old(heap).spec_el_size());
    assert(answers(v, heap.spec_parent().spec_order(), size as nat)) by {
        let o = choose|o: nat| #[trigger] free_block(v, o, k);
        heap.spec_parent().lemma_view_len();
        lemma_free_block_answers(v, heap.spec_parent().spec_order(), size as nat, o);
    }
    let r = heap.zero_alloc(size, mem);
    assert(r.0 - old(heap).spec_base() == first_free(v, k) * e);
    assert(r.1 == pow2(k) * e);
    r.0
}

/// Resizes the block at `ptr` to room for `count` values of type `T`: for
/// no bytes at all the block is given back and the result is 0; otherwise
/// the block is given back, a new one handed out and as many bytes as it
/// holds moved into it from `ptr`. `mem` is the memory from address 0, which
/// holds the heap and the bytes read from `ptr`; for a null `ptr` they are
/// those from address 0. The byte count must fit in a `usize`, and for a
/// nonzero count a block of that size must be free once `ptr`'s block is
/// given back.
#[verifier::rlimit(50)]
pub fn realloc_raw<T>(heap: &mut Alloc, ptr: usize, count: usize, mem: &mut [u8]) -> (p: usize)
    requires
        old(heap).wf(),
        old(heap).spec_base() + pow2(old(heap).spec_parent().spec_order() + old(heap).spec_el_size())
            <= old(mem)@.len(),
        count as nat * vstd::layout::size_of::<T>() <= usize::MAX,
        count as nat * vstd::layout::size_of::<T>() != 0 ==> ptr + pow2(
            size_order(count as nat * vstd::layout::size_of::<T>()),
        ) * pow2(old(heap).spec_el_size()) <= old(mem)@.len(),
        count as nat * vstd::layout::size_of::<T>() != 0 ==> exists|o: nat|
            #[trigger] free_block(
                released(*old(heap), ptr as nat),
                o,
                size_order(count as nat * vstd::layout::size_of::<T>()),
            ),
    ensures
        final(heap).wf(),
        final(heap).spec_base() == old(heap).spec_base(),
        final(heap).spec_el_size() == old(heap).spec_el_size(),
        final(heap).spec_parent().spec_order() == old(heap).spec_parent().spec_order(),
        final(mem)@.len() == old(mem)@.len(),
        ({
            let size = count as nat * vstd::layout::size_of::<T>();
            let k = size_order(size);
            let v = released(*old(heap), ptr as nat);
            let e = pow2(old(heap).spec_el_size());
            let base = old(heap).spec_base();
            if size == 0 {
                &&& p == 0
                &&& final(heap).spec_parent()@ == v
                &&& final(mem)@ == old(mem)@
            } else {
                let start = base + first_free(v, k) * e;
                &&& p == start
                &&& final(heap).spec_parent()@ == claim(v, first_free(v, k), k)
                &&& forall|i: int|
                    0 <= i < final(mem)@.len() ==> #[trigger] final(mem)@[i] == if start <= i
                        < start + pow2(k) * e {
                        old(mem)@[ptr + (i - start)]
                    } else {
                        old(mem)@[i]
                    }
            }
        }),
{
    let size = count * core::mem::size_of::<T>();
    if size == 0 {
        free(heap, ptr);
        return 0;
    }
    let ghost v = released(*old(heap), ptr as nat);
    let ghost k = size_order(size as nat);
    let ghost e = pow2(old(heap).spec_el_size());
    assert(answers(v, heap.spec_parent().spec_order(), size as nat)) by {
        let o = choose|o: nat| #[trigger] free_block(v, o, k);
        heap.spec_parent().lemma_view_len();
        assert(v.len() == pow2(heap.spec_parent().spec_order()));
        lemma_free_block_answers(v, heap.spec_parent().spec_order(), size as nat, o);
    }
    let r = heap.realloc(ptr, size, mem);
    assert(r.0 - old(heap).spec_base() == first_free(v, k) * e);
    assert(r.1 == pow2(k) * e);
    r.0
}

/// The value in `opt`, which must hold one.
pub fn get<T>(opt: Option<T>) -> (v: T)
    requires
        opt is Some,
    ensures
        v == opt->0,
{
    opt.unwrap()
}

} // verus!
