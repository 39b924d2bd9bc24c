use rustboot::arch::x86::runtime::{copy_memory, dmemset, memcmp, memcpy, memmove, memset, wmemset};

#[test]
fn memset_fills_a_prefix() {
    let mut b = vec![9u8; 6];
    memset(&mut b, 0x1AB, 3);
    assert_eq!(b, vec![0xAB, 0xAB, 0xAB, 9, 9, 9]);
    memset(&mut b, 0, 0);
    assert_eq!(b[0], 0xAB);
    memset(&mut b, -1, 1);
    assert_eq!(b[0], 0xFF);
    memset(&mut b, 7, 6);
    assert_eq!(b, vec![7; 6]);
}

#[test]
fn memset_of_every_length() {
    for n in 0..13usize {
        let mut b = vec![1u8; 13];
        memset(&mut b, 5, n);
        for i in 0..13 {
            assert_eq!(b[i], if i < n { 5 } else { 1 });
        }
    }
}

#[test]
fn wmemset_stores_little_endian_halves() {
    let mut b = vec![0u8; 6];
    wmemset(&mut b, 0x1234, 2);
    assert_eq!(b, vec![0x34, 0x12, 0x34, 0x12, 0, 0]);
}

#[test]
fn dmemset_stores_little_endian_words() {
    let mut b = vec![0xEEu8; 9];
    dmemset(&mut b, 0x1122_3344, 2);
    assert_eq!(b, vec![0x44, 0x33, 0x22, 0x11, 0x44, 0x33, 0x22, 0x11, 0xEE]);
}

#[test]
fn memcpy_copies_a_prefix() {
    let mut d = vec![0u8; 5];
    memcpy(&mut d, &[1, 2, 3, 4], 3);
    assert_eq!(d, vec![1, 2, 3, 0, 0]);
}

#[test]
fn memmove_forwards_copies_exactly() {
    let mut c: Vec<u8> = (0..8).collect();
    memmove(&mut c, 0, 3, 5);
    assert_eq!(c, vec![3, 4, 5, 6, 7, 5, 6, 7]);
    let mut d: Vec<u8> = (0..4).collect();
    memmove(&mut d, 1, 1, 3);
    assert_eq!(d, vec![0, 1, 2, 3]);
}

#[test]
fn memmove_backwards_starts_one_past_the_end() {
    // fewer than 12 bytes: bytes 1..=n move, byte 0 of the target stays
    let mut b: Vec<u8> = (0..8).collect();
    memmove(&mut b, 2, 0, 5);
    assert_eq!(b, vec![0, 1, 2, 1, 2, 3, 4, 5]);
    let mut z: Vec<u8> = (0..4).collect();
    memmove(&mut z, 2, 1, 0);
    assert_eq!(z, vec![0, 1, 2, 3]);
}

/// The copy routine run with the direction flag set, on memory from
/// address 0: single bytes to align, then words, then single bytes.
fn copy_down(m: &mut Vec<u8>, d: usize, s: usize, n: usize) {
    fn bytes(m: &mut Vec<u8>, d: &mut usize, s: &mut usize, k: usize) {
        for _ in 0..k {
            m[*d] = m[*s];
            *d = d.wrapping_sub(1);
            *s = s.wrapping_sub(1);
        }
    }
    let (mut d, mut s) = (d, s);
    if n == 0 {
        return;
    }
    if n < 12 {
        bytes(m, &mut d, &mut s, n);
        return;
    }
    let h = (4 - d % 4) % 4;
    let rest = n - h;
    bytes(m, &mut d, &mut s, h);
    for _ in 0..rest / 4 {
        let w = [m[s], m[s + 1], m[s + 2], m[s + 3]];
        m[d..d + 4].copy_from_slice(&w);
        d -= 4;
        s -= 4;
    }
    bytes(m, &mut d, &mut s, rest % 4);
}

#[test]
fn memmove_backwards_follows_the_copy_routine() {
    for n in 0..40usize {
        for src in 0..6usize {
            for gap in 1..7usize {
                let dest = src + gap;
                let mut got: Vec<u8> = (0..64).map(|i| i as u8 ^ 0x5a).collect();
                let mut want = got.clone();
                memmove(&mut got, dest, src, n);
                copy_down(&mut want, dest + n, src + n, n);
                assert_eq!(got, want, "dest {} src {} n {}", dest, src, n);
            }
        }
    }
}

#[test]
fn memcmp_reports_the_first_difference() {
    assert_eq!(memcmp(&[1, 2, 3], &[1, 2, 3], 3), 0);
    assert_eq!(memcmp(&[1, 2, 3], &[1, 2, 5], 3), 254);
    assert_eq!(memcmp(&[1, 9, 3], &[1, 2, 5], 3), 7);
    assert_eq!(memcmp(&[1, 2, 3], &[1, 2, 5], 2), 0);
    assert_eq!(memcmp(&[], &[], 0), 0);
    let s = [4u8, 5, 6];
    assert_eq!(memcmp(&s, &s, 3), 0);
}

#[test]
fn copy_memory_moves_through_overlap() {
    let mut b: Vec<u8> = (0..8).collect();
    copy_memory(&mut b, 2, 0, 5);
    assert_eq!(b, vec![0, 1, 0, 1, 2, 3, 4, 7]);
    let mut c: Vec<u8> = (0..8).collect();
    copy_memory(&mut c, 0, 3, 5);
    assert_eq!(c, vec![3, 4, 5, 6, 7, 5, 6, 7]);
}
