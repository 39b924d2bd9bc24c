use std::cell::Cell;

use rustboot::arch::x86::cpu::info;
use rustboot::kernel::integer::{range, to_str_bytes};
use rustboot::kernel::mm::physical::Phys;
use rustboot::kernel::process::Process;
use rustboot::kernel::util::bitv::Bitv;

#[test]
fn numbers_in_any_radix() {
    assert_eq!(to_str_bytes(0, 10), b"0".to_vec());
    assert_eq!(to_str_bytes(7, 10), b"7".to_vec());
    // the quotient is divided again before each later digit: the
    // second-lowest digit is skipped
    assert_eq!(to_str_bytes(42, 10), b"2".to_vec());
    assert_eq!(to_str_bytes(123, 10), b"13".to_vec());
    assert_eq!(to_str_bytes(-123, 10), b"-13".to_vec());
    assert_eq!(to_str_bytes(12345, 10), b"1235".to_vec());
    assert_eq!(to_str_bytes(1000, 10), b"100".to_vec());
    assert_eq!(to_str_bytes(255, 16), b"f".to_vec());
    assert_eq!(to_str_bytes(5, 2), b"11".to_vec());
    assert_eq!(to_str_bytes(35, 36), b"z".to_vec());
    assert_eq!(to_str_bytes(-36, 36), b"-0".to_vec());
}

#[test]
fn range_visits_each_index_in_order() {
    let seen = Cell::new(0usize);
    let count = Cell::new(0usize);
    range(2, 5, |i| {
        assert_eq!(i, 2 + count.get());
        seen.set(seen.get() + i);
        count.set(count.get() + 1);
    });
    assert_eq!(seen.get(), 9);
    assert_eq!(count.get(), 3);
    range(4, 4, |_| panic!("empty range"));
    range(5, 1, |_| panic!("empty range"));
}

#[test]
fn bit_vector_entries() {
    let mut v = Bitv::new(2);
    assert_eq!(v.get(0), 0);
    assert_eq!(v.get(31), 0);
    v.set(3, 2);
    v.set(16, 3);
    v.set(17, 1);
    assert_eq!(v.get(3), 2);
    assert_eq!(v.get(16), 3);
    assert_eq!(v.get(17), 1);
    assert_eq!(v.get(2), 0);
    v.set(16, 0);
    assert_eq!(v.get(16), 0);
    assert_eq!(v.get(17), 1);
}

#[test]
fn bit_vector_clear_zeroes_whole_bytes() {
    let mut v = Bitv::new(2);
    for i in 0..32 {
        v.set(i, 3);
    }
    v.clear(7);
    for i in 0..4 {
        assert_eq!(v.get(i), 0);
    }
    for i in 4..32 {
        assert_eq!(v.get(i), 3);
    }
    v.clear(32);
    for i in 0..32 {
        assert_eq!(v.get(i), 0);
    }
}

#[test]
fn process_entry() {
    let mut p = Process::new(Phys::at(0x8000));
    assert_eq!((p.eip, p.esp), (0, 0));
    p.eip = 0x40_0000;
    p.esp = 0xBFFF_F000;
    assert_eq!(p.enter(), (0x8000, 0x40_0000, 0xBFFF_F000));
}

#[test]
fn processor_information() {
    info();
}

/// The kernel's digit loop, written out on plain integers.
fn digit_loop(num: i64, radix: u32) -> Vec<u8> {
    let r = radix as i128;
    let n = num as i128;
    let neg = n < 0;
    let mut deccum = (n / r).abs();
    let mut digit = (n % r).abs();
    let mut buf = Vec::new();
    loop {
        let d = digit as u8;
        buf.push(if d <= 9 { b'0' + d } else { b'a' + d - 10 });
        deccum /= r;
        if deccum == 0 {
            break;
        }
        digit = deccum % r;
    }
    let mut out = Vec::new();
    if neg {
        out.push(b'-');
    }
    out.extend(buf.iter().rev());
    out
}

#[test]
fn digits_follow_the_kernel_loop() {
    for radix in 2..=36u32 {
        for n in [0i64, 1, -1, 35, 36, -1000, 123_456_789, i64::MAX, i64::MIN].iter() {
            assert_eq!(to_str_bytes(*n, radix), digit_loop(*n, radix));
        }
    }
}
