use rustboot::kernel::heap::{allocate, free, get, malloc_raw, realloc_raw, zero_alloc};
use rustboot::kernel::mm::allocator::{Alloc, Allocator, BuddyAlloc};
use rustboot::kernel::util::bitv::Bitv;

/// A heap of 32 bytes at address 0x100.
fn heap() -> Alloc {
    Alloc::new(BuddyAlloc::new(5, Bitv::new(4)), 0x100, 0)
}

#[test]
fn malloc_and_free() {
    let mut h = heap();
    assert_eq!(malloc_raw(&mut h, 1), 0x100);
    assert_eq!(malloc_raw(&mut h, 3), 0x104);
    assert_eq!(malloc_raw(&mut h, 1), 0x101);
    free(&mut h, 0x104);
    assert_eq!(malloc_raw(&mut h, 4), 0x104);
}

#[test]
fn free_outside_the_heap_is_ignored() {
    let mut h = heap();
    assert_eq!(malloc_raw(&mut h, 32), 0x100);
    free(&mut h, 0x20);
    free(&mut h, 0x100 + 32);
    assert_eq!(h.allocate(1), (0x100, 0));
}

#[test]
fn typed_allocation_counts_bytes() {
    let mut h = heap();
    assert_eq!(allocate::<u32>(&mut h, 2), 0x100);
    // the first 8 bytes are taken
    assert_eq!(allocate::<u8>(&mut h, 1), 0x108);
    assert_eq!(allocate::<u64>(&mut h, 0), 0x109);
}

#[test]
fn typed_zero_allocation() {
    let mut h = heap();
    let mut mem = vec![0xCCu8; 32];
    assert_eq!(zero_alloc::<u16>(&mut h, 3, &mut mem), 0x100);
    assert!(mem[..8].iter().all(|b| *b == 0));
    assert!(mem[8..].iter().all(|b| *b == 0xCC));
}

/// Memory from address 0 up to `len`, holding `i` at `0x100 + i` for the
/// 32 bytes of the heap and 0 elsewhere.
fn memory(len: usize) -> Vec<u8> {
    let mut mem = vec![0u8; len];
    for i in 0..32 {
        mem[0x100 + i] = i as u8;
    }
    mem
}

#[test]
fn realloc_moves_bytes_into_a_bigger_block() {
    let mut h = heap();
    let mut mem = memory(0x120);
    assert_eq!(allocate::<u8>(&mut h, 2), 0x100);
    assert_eq!(allocate::<u8>(&mut h, 2), 0x102);
    // grows to 8 bytes: the first free block of 8 bytes is at 0x108
    assert_eq!(realloc_raw::<u16>(&mut h, 0x102, 4, &mut mem), 0x108);
    assert_eq!(&mem[0x108..0x110], &[2, 3, 4, 5, 6, 7, 8, 9]);
    assert_eq!(&mem[0x100..0x108], &[0, 1, 2, 3, 4, 5, 6, 7]);
}

#[test]
fn realloc_to_nothing_frees() {
    let mut h = heap();
    let mut mem = vec![5u8; 0x120];
    assert_eq!(malloc_raw(&mut h, 32), 0x100);
    assert_eq!(realloc_raw::<u32>(&mut h, 0x100, 0, &mut mem), 0);
    assert_eq!(mem, vec![5u8; 0x120]);
    assert_eq!(malloc_raw(&mut h, 32), 0x100);
}

#[test]
fn get_unwraps() {
    assert_eq!(get(Some(5)), 5);
    assert_eq!(get(Some("x")), "x");
}

#[test]
fn realloc_of_null_copies_from_address_zero() {
    let mut h = heap();
    let mut mem = vec![3u8; 0x120];
    mem[0] = 9;
    mem[1] = 8;
    mem[2] = 7;
    mem[3] = 6;
    assert_eq!(realloc_raw::<u8>(&mut h, 0, 4, &mut mem), 0x100);
    assert_eq!(&mem[0x100..0x104], &[9, 8, 7, 6]);
    assert!(mem[0x104..].iter().all(|b| *b == 3));
    assert_eq!(malloc_raw(&mut h, 1), 0x104);
}

#[test]
fn realloc_near_the_end_reads_past_the_heap() {
    let mut h = heap();
    let mut mem = memory(0x127);
    for i in 0..7 {
        mem[0x120 + i] = 100 + i as u8;
    }
    assert_eq!(malloc_raw(&mut h, 16), 0x100);
    assert_eq!(malloc_raw(&mut h, 8), 0x110);
    assert_eq!(malloc_raw(&mut h, 4), 0x118);
    assert_eq!(malloc_raw(&mut h, 2), 0x11c);
    assert_eq!(malloc_raw(&mut h, 1), 0x11e);
    assert_eq!(malloc_raw(&mut h, 1), 0x11f);
    // the last byte grows to 8 bytes: after giving it back no 8-block is
    // free but the one at 0x100 once 0x100 is freed
    free(&mut h, 0x100);
    assert_eq!(realloc_raw::<u8>(&mut h, 0x11f, 8, &mut mem), 0x100);
    // the 8 bytes from 0x11f on: the heap's last byte, then what follows it
    assert_eq!(&mem[0x100..0x108], &[31, 100, 101, 102, 103, 104, 105, 106]);
    assert_eq!(&mem[0x108..0x110], &[8, 9, 10, 11, 12, 13, 14, 15]);
}
