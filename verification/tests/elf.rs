use rustboot::kernel::elf::elf32::{AuxvType, AuxvValue, Elf32_Ehdr, Elf32_gptab, Union_Unnamed1, Union_Unnamed3};
use rustboot::kernel::elf::elf64::{Elf64_Ehdr, Union_Unnamed2};
use rustboot::kernel::elf::{le_u32, le_u64, read_le, Segment, ELFIdent};

fn put(b: &mut [u8], at: usize, v: u64, n: usize) {
    for i in 0..n {
        b[at + i] = (v >> (8 * i)) as u8;
    }
}

fn elf32(phnum: u64, p_type: u64) -> Vec<u8> {
    let mut b = vec![0u8; 52 + 32];
    b[..4].copy_from_slice(&[0x7f, b'E', b'L', b'F']);
    b[4] = 1;
    put(&mut b, 24, 0x1000, 4); // e_entry
    put(&mut b, 28, 52, 4); // e_phoff
    put(&mut b, 44, phnum, 2); // e_phnum
    put(&mut b, 52, p_type, 4); // p_type
    put(&mut b, 56, 0x40, 4); // p_offset
    put(&mut b, 60, 0x2000, 4); // p_vaddr
    put(&mut b, 68, 0x10, 4); // p_filesz
    put(&mut b, 72, 0x30, 4); // p_memsz
    b
}

fn elf64(phnum: u64) -> Vec<u8> {
    let mut b = vec![0u8; 64 + 56];
    b[..4].copy_from_slice(&[0x7f, b'E', b'L', b'F']);
    b[4] = 2;
    put(&mut b, 24, 0x4000_0000_1000, 8); // e_entry
    put(&mut b, 32, 64, 8); // e_phoff
    put(&mut b, 56, phnum, 2); // e_phnum
    put(&mut b, 64, 1, 4); // p_type
    put(&mut b, 72, 0x200, 8); // p_offset
    put(&mut b, 80, 0x1_0000_0000, 8); // p_vaddr
    put(&mut b, 96, 0x300, 8); // p_filesz
    put(&mut b, 104, 0x400, 8); // p_memsz
    b
}

#[test]
fn loads_a_32_bit_executable() {
    let img = ELFIdent::load(&elf32(2, 1)).unwrap();
    assert_eq!(img.entry, 0x1000);
    assert_eq!(img.segments.len(), 2);
    for s in img.segments.iter() {
        assert_eq!((s.vaddr, s.offset, s.filesz, s.memsz), (0x2000, 0x40, 0x10, 0x30));
    }
}

#[test]
fn loads_a_64_bit_executable() {
    let img = ELFIdent::load(&elf64(1)).unwrap();
    assert_eq!(img.entry, 0x4000_0000_1000);
    assert_eq!(img.segments.len(), 1);
    let s = &img.segments[0];
    assert_eq!((s.vaddr, s.offset, s.filesz, s.memsz), (0x1_0000_0000, 0x200, 0x300, 0x400));
}

#[test]
fn every_counted_header_is_loaded_whatever_its_type() {
    let img = ELFIdent::load(&elf32(3, 2)).unwrap();
    assert_eq!(img.entry, 0x1000);
    assert_eq!(img.segments.len(), 3);
    assert_eq!(img.segments[2].vaddr, 0x2000);
    let img = ELFIdent::load(&elf32(0, 1)).unwrap();
    assert_eq!(img.segments.len(), 0);
}

#[test]
fn unknown_class_is_refused() {
    let mut b = elf32(1, 1);
    b[4] = 3;
    assert!(ELFIdent::load(&b).is_none());
    b[4] = 0;
    assert!(ELFIdent::load(&b).is_none());
    assert!(ELFIdent::load(&[0x7f, b'E', b'L', b'F', 0]).is_none());
}

#[test]
fn a_file_without_program_headers_needs_only_its_header() {
    let img = ELFIdent::load(&elf32(0, 1)[..52]).unwrap();
    assert_eq!((img.entry, img.segments.len()), (0x1000, 0));
    let img = ELFIdent::load(&elf64(0)[..64]).unwrap();
    assert_eq!((img.entry, img.segments.len()), (0x4000_0000_1000, 0));
}

#[test]
fn segment_copies_file_bytes_and_zero_fills() {
    let seg = Segment { vaddr: 0x2000, offset: 2, filesz: 3, memsz: 5 };
    let file = [10u8, 11, 12, 13, 14, 15, 16];
    let mut mem = vec![0xFFu8; 10];
    seg.load(&file, &mut mem, 0x2000);
    assert_eq!(mem, vec![12, 13, 14, 0xFF, 0xFF, 0, 0, 0xFF, 0xFF, 0xFF]);
}

#[test]
fn segment_without_extra_memory_is_only_copied() {
    let seg = Segment { vaddr: 0x1001, offset: 0, filesz: 2, memsz: 2 };
    let mut mem = vec![0u8; 4];
    seg.load(&[7, 8], &mut mem, 0x1000);
    assert_eq!(mem, vec![0, 7, 8, 0]);
}

#[test]
fn little_endian_reads() {
    assert_eq!(le_u32(&[0x78, 0x56, 0x34, 0x12]), 0x1234_5678);
    assert_eq!(le_u64(&[1, 0, 0, 0, 0, 0, 0, 0x80]), 0x8000_0000_0000_0001);
    let b = [0u8, 0x34, 0x12, 0xFF];
    assert_eq!(read_le(&b, 1, 2), 0x1234);
    assert_eq!(read_le(&b, 0, 4), 0xFF12_3400);
    assert_eq!(read_le(&b, 3, 0), 0);
}

#[test]
fn union_views() {
    let d = Union_Unnamed1 { data: [1, 2, 0, 0] };
    assert_eq!(d.d_val(), 0x201);
    assert_eq!(d.d_ptr(), 0x201);
    let a = Union_Unnamed3 { data: [0, 0, 0, 0, 1, 0, 0, 0] };
    assert_eq!(a.a_val(), 0x1_0000_0000);
    assert_eq!(a.a_ptr(), a.a_fcn());
    let u = Union_Unnamed2 { data: [0xFF; 8] };
    assert_eq!(u.d_val(), u64::MAX);
    let g = Elf32_gptab { data: [1, 0, 0, 0, 2, 0, 0, 0] };
    assert_eq!(g.gt_header().gt_current_g_value, 1);
    assert_eq!(g.gt_header().gt_unused, 2);
    assert_eq!(g.gt_entry().gt_g_value, 1);
    assert_eq!(g.gt_entry().gt_bytes, 2);
}

#[test]
fn auxiliary_vector_types() {
    assert_eq!(AuxvType::AT_NULL.value(), 0);
    assert_eq!(AuxvType::AT_CLKTCK.value(), 17);
    assert_eq!(AuxvType::AT_PLATFORM.value(), 15);
    assert_eq!(AuxvType::AT_EXECFN.value(), 31);
    assert_eq!(AuxvType::AT_L3_CACHESHAPE.value(), 37);
}

#[test]
fn headers_load_by_their_own_layout() {
    let img = Elf32_Ehdr::load(&elf32(1, 1));
    assert_eq!(img.entry, 0x1000);
    assert_eq!(img.segments.len(), 1);
    let img = Elf64_Ehdr::load(&elf64(3));
    assert_eq!(img.segments.len(), 3);
    assert_eq!(img.segments[2].memsz, 0x400);
    // the class byte is not looked at
    let mut b = elf64(1);
    b[4] = 9;
    assert_eq!(Elf64_Ehdr::load(&b).entry, 0x4000_0000_1000);
}

#[test]
fn auxiliary_values() {
    let v = AuxvValue { data: [0x10, 0, 0, 0x80] };
    assert_eq!(v.a_val(), 0x8000_0010);
    assert_eq!(v.a_ptr(), v.a_fcn());
}
