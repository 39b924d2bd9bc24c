use rustboot::kernel::mm::allocator::{Alloc, Allocator, BuddyAlloc};
use rustboot::kernel::util::bitv::Bitv;

fn buddy(order: usize) -> BuddyAlloc {
    // 2^(order + 1) two-bit entries, 16 per word
    let words = ((1usize << (order + 1)) + 15) / 16;
    BuddyAlloc::new(order, Bitv::new(words))
}

#[test]
fn allocates_leftmost_blocks_in_order() {
    let mut b = buddy(4);
    assert_eq!(b.allocate(1), (0, 1));
    assert_eq!(b.allocate(1), (1, 1));
    assert_eq!(b.allocate(2), (2, 2));
    assert_eq!(b.allocate(4), (4, 4));
    assert_eq!(b.allocate(8), (8, 8));
}

#[test]
fn full_allocator_reports_nothing_free() {
    let mut b = buddy(4);
    assert_eq!(b.allocate(16), (0, 16));
    assert_eq!(b.allocate(1), (0, 0));
    assert_eq!(b.allocate(0), (0, 0));
}

#[test]
fn oversized_request_on_a_full_allocator_gets_nothing() {
    let mut b = buddy(4);
    assert_eq!(b.allocate(16), (0, 16));
    assert_eq!(b.allocate(17), (0, 0));
    b.free(0);
    assert_eq!(b.allocate(16), (0, 16));
}

#[test]
fn size_zero_takes_one_unit() {
    let mut b = buddy(3);
    assert_eq!(b.allocate(0), (0, 1));
    assert_eq!(b.allocate(0), (1, 1));
}

#[test]
fn sizes_round_up_to_powers_of_two() {
    let mut b = buddy(4);
    assert_eq!(b.allocate(3), (0, 4));
    assert_eq!(b.allocate(5), (8, 8));
    assert_eq!(b.allocate(2), (4, 2));
    assert_eq!(b.allocate(1), (6, 1));
}

#[test]
fn free_undoes_allocate() {
    let mut b = buddy(4);
    assert_eq!(b.allocate(1), (0, 1));
    assert_eq!(b.allocate(1), (1, 1));
    b.free(1);
    assert_eq!(b.allocate(1), (1, 1));
    b.free(0);
    assert_eq!(b.allocate(1), (0, 1));
}

#[test]
fn freed_buddies_merge() {
    let mut b = buddy(4);
    assert_eq!(b.allocate(8), (0, 8));
    assert_eq!(b.allocate(8), (8, 8));
    assert_eq!(b.allocate(1), (0, 0));
    b.free(0);
    b.free(8);
    assert_eq!(b.allocate(16), (0, 16));
}

#[test]
fn freeing_any_unit_of_a_block_frees_the_block() {
    let mut b = buddy(4);
    assert_eq!(b.allocate(4), (0, 4));
    b.free(3);
    assert_eq!(b.allocate(4), (0, 4));
}

#[test]
fn freeing_a_free_unit_changes_nothing() {
    let mut b = buddy(4);
    assert_eq!(b.allocate(8), (0, 8));
    b.free(12);
    assert_eq!(b.allocate(8), (8, 8));
    assert_eq!(b.allocate(1), (0, 0));
}

#[test]
fn blocks_are_aligned_and_disjoint() {
    let mut b = buddy(5);
    let sizes = [1usize, 3, 2, 7, 1, 4, 2, 8];
    let mut taken: Vec<(usize, usize)> = Vec::new();
    for s in sizes.iter() {
        let (o, n) = b.allocate(*s);
        assert!(n >= *s && n > 0);
        assert!(n < 2 * *s || n == 1);
        assert_eq!(o % n, 0);
        assert!(o + n <= 32);
        for (o2, n2) in taken.iter() {
            assert!(o + n <= *o2 || o2 + n2 <= o);
        }
        taken.push((o, n));
    }
}

#[test]
fn offset_of_tree_nodes() {
    let b = buddy(4);
    assert_eq!(b.offset(0, 4), 0);
    assert_eq!(b.offset(1, 3), 0);
    assert_eq!(b.offset(2, 3), 8);
    assert_eq!(b.offset(6, 2), 12);
    assert_eq!(b.offset(30, 0), 15);
}

#[test]
fn scaled_allocator_hands_out_addresses() {
    let mut a = Alloc::new(buddy(4), 0x10000, 12);
    assert_eq!(a.allocate(1), (0x10000, 0x1000));
    assert_eq!(a.allocate(2), (0x12000, 0x2000));
    assert_eq!(a.allocate(1), (0x11000, 0x1000));
    a.free(0x12fff);
    assert_eq!(a.allocate(2), (0x12000, 0x2000));
    assert_eq!(a.allocate(16), (0x10000, 0));
}

#[test]
fn scaled_allocator_ignores_foreign_addresses() {
    let mut a = Alloc::new(buddy(2), 0x1000, 4);
    assert_eq!(a.allocate(4), (0x1000, 64));
    a.free(0x0fff);
    a.free(0x1040);
    assert_eq!(a.allocate(1), (0x1000, 0));
    a.free(0x1000);
    assert_eq!(a.allocate(1), (0x1000, 16));
}

#[test]
fn zero_alloc_clears_the_block() {
    let mut a = Alloc::new(buddy(3), 100, 1);
    let mut mem = vec![0xAAu8; 16];
    assert_eq!(a.zero_alloc(2, &mut mem), (100, 4));
    assert_eq!(&mem[..4], &[0, 0, 0, 0]);
    assert!(mem[4..].iter().all(|b| *b == 0xAA));
    assert_eq!(a.zero_alloc(1, &mut mem), (104, 2));
    assert_eq!(&mem[4..6], &[0, 0]);
    assert!(mem[6..].iter().all(|b| *b == 0xAA));
}

#[test]
fn zero_alloc_without_room_leaves_memory() {
    let mut a = Alloc::new(buddy(1), 0, 0);
    let mut mem = vec![7u8; 2];
    assert_eq!(a.allocate(1), (0, 1));
    assert_eq!(a.zero_alloc(2, &mut mem), (0, 0));
    assert_eq!(mem, vec![7, 7]);
}

#[test]
fn realloc_moves_the_contents() {
    let mut a = Alloc::new(buddy(3), 0, 0);
    let mut mem: Vec<u8> = (0..8).collect();
    assert_eq!(a.allocate(1), (0, 1));
    assert_eq!(a.allocate(2), (2, 2));
    // the 2-byte block at 2 grows to 4 bytes: it moves to 4
    assert_eq!(a.realloc(2, 4, &mut mem), (4, 4));
    assert_eq!(mem, vec![0, 1, 2, 3, 2, 3, 4, 5]);
}

#[test]
fn realloc_in_place_when_the_block_is_first() {
    let mut a = Alloc::new(buddy(3), 0, 0);
    let mut mem: Vec<u8> = (10..18).collect();
    assert_eq!(a.allocate(2), (0, 2));
    assert_eq!(a.realloc(0, 4, &mut mem), (0, 4));
    assert_eq!(mem, (10..18).collect::<Vec<u8>>());
}

#[test]
fn single_unit_allocator() {
    let mut b = BuddyAlloc::new(0, Bitv::new(1));
    assert_eq!(b.allocate(1), (0, 1));
    assert_eq!(b.allocate(1), (0, 0));
    assert_eq!(b.allocate(2), (0, 0));
    b.free(0);
    assert_eq!(b.allocate(0), (0, 1));
}

#[test]
fn single_unit_tree_keeps_its_root() {
    // a one-unit tree has no whole byte of entries to clear: a root marked
    // used stays used
    let mut storage = Bitv::new(1);
    storage.set(0, 1);
    let mut b = BuddyAlloc::new(0, storage);
    assert_eq!(b.allocate(1), (0, 0));
    b.free(0);
    assert_eq!(b.allocate(1), (0, 1));
}

#[test]
fn new_clears_a_used_tree() {
    let mut storage = Bitv::new(2);
    for i in 0..32 {
        storage.set(i, 3);
    }
    let mut b = BuddyAlloc::new(4, storage);
    assert_eq!(b.allocate(16), (0, 16));
}

#[test]
fn realloc_of_null_reads_from_address_zero() {
    let mut a = Alloc::new(buddy(3), 0x100, 0);
    let mut mem: Vec<u8> = vec![0u8; 0x108];
    mem[0] = 5;
    mem[1] = 6;
    mem[2] = 7;
    assert_eq!(a.realloc(0, 2, &mut mem), (0x100, 2));
    assert_eq!(&mem[0x100..0x108], &[5, 6, 0, 0, 0, 0, 0, 0]);
    assert_eq!(&mem[..3], &[5, 6, 7]);
}

#[test]
fn realloc_without_room_copies_nothing() {
    let mut a = Alloc::new(buddy(3), 0, 0);
    let mut mem: Vec<u8> = (0..8).collect();
    assert_eq!(a.allocate(4), (0, 4));
    assert_eq!(a.allocate(2), (4, 2));
    assert_eq!(a.allocate(1), (6, 1));
    // the 1-byte block at 6 grows to 2 bytes: once given back, the pair at
    // 6 is free, so it stays there
    assert_eq!(a.realloc(6, 2, &mut mem), (6, 2));
    assert_eq!(mem, (0..8).collect::<Vec<u8>>());
    // the pair at 4 grows to 4: no 4-block is free
    assert_eq!(a.realloc(4, 4, &mut mem), (0, 0));
    assert_eq!(mem, (0..8).collect::<Vec<u8>>());
}
