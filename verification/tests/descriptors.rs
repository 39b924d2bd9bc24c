use rustboot::arch::x86::cpu::exception::{exception_message, Fault};
use rustboot::arch::x86::cpu::gdt::{
    Gdt, GdtEntry, CODE_READ, DATA_WRITE, DPL3, PAGES, PRESENT as GDT_PRESENT, SIZE_32, STORAGE,
};
use rustboot::arch::x86::cpu::idt::{IdtEntry, INTR_GATE, PRESENT};
use rustboot::arch::x86::cpu::interrupt::{Int, Isr, Table};
use rustboot::arch::x86::cpu::{init, DtReg, Eflags, CF, IF, KERNEL_CODE, KERNEL_DATA, LOCAL};
use rustboot::arch::x86::drivers::pic;
use rustboot::arch::x86::io::PortWrite;
use rustboot::kernel::idt;

fn is_write(w: &PortWrite, port: u16, value: u16, wide: bool) -> bool {
    w.port == port && w.value == value && w.wide == wide
}

#[test]
fn segment_descriptor_fields() {
    let e = GdtEntry::new(0x1234_5678, 0xABCDE, 0x9A, 0x40);
    assert_eq!(e.base_lo, 0x5678);
    assert_eq!(e.base_hl, 0x34);
    assert_eq!(e.base_hh, 0x12);
    assert_eq!(e.limit_lo, 0xBCDE);
    assert_eq!(e.limit_hi_flags, 0x4A);
    assert_eq!(e.access, 0x9A);
}

#[test]
fn descriptor_limit_keeps_twenty_bits() {
    let e = GdtEntry::new(0, 0xFFF_FFFF, 0, 0);
    assert_eq!(e.limit_lo, 0xFFFF);
    assert_eq!(e.limit_hi_flags, 0x0F);
}

#[test]
fn flat_segment() {
    let e = GdtEntry::flat(STORAGE | CODE_READ, SIZE_32);
    assert_eq!(e.base_lo, 0);
    assert_eq!(e.base_hl, 0);
    assert_eq!(e.base_hh, 0);
    assert_eq!(e.limit_lo, 0xFFFF);
    assert_eq!(e.limit_hi_flags, SIZE_32 | PAGES | 0xF);
    assert_eq!(e.access, 0x1A);
}

#[test]
fn segment_sized_by_its_type() {
    let e = GdtEntry::seg::<[u32; 32]>(0x8000, STORAGE, SIZE_32);
    assert_eq!(e.base_lo, 0x8000);
    assert_eq!(e.limit_lo, 128);
}

#[test]
fn table_enable_and_disable() {
    let mut g = Gdt::new();
    assert_eq!(g.entry(3).access, 0);
    g.enable(3, GdtEntry::new(0x100, 0x200, STORAGE, 0));
    assert_eq!(g.entry(3).access, STORAGE | GDT_PRESENT);
    assert_eq!(g.entry(3).base_lo, 0x100);
    g.disable(3);
    assert_eq!(g.entry(3).access, STORAGE);
    assert_eq!(g.entry(3).limit_lo, 0x200);
}

#[test]
fn kernel_descriptor_table() {
    let tss = GdtEntry::new(0x9000, 0x67, 0x09, 0);
    let g = init(0x5000, tss);
    assert_eq!(g.entry(0).access, 0);
    assert_eq!(g.entry(1).access, 0x9A);
    assert_eq!(g.entry(2).access, 0x92);
    assert_eq!(g.entry(3).access, 0xFA);
    assert_eq!(g.entry(4).access, 0xF2);
    assert_eq!(g.entry(1).limit_hi_flags, 0xCF);
    assert_eq!(g.entry(5).base_lo, 0x5000);
    assert_eq!(g.entry(5).limit_lo, 128);
    assert_eq!(g.entry(5).access, STORAGE | DPL3 | GDT_PRESENT);
    assert_eq!(g.entry(6).access, 0x89);
    assert_eq!(g.entry(6).base_lo, 0x9000);
    assert_eq!(g.entry(7).access, 0);
    assert_eq!(g.entry(255).access, 0);
    assert_eq!((KERNEL_CODE, KERNEL_DATA, LOCAL), (8, 16, 40));
    assert_eq!(DATA_WRITE, 2);
}

#[test]
fn descriptor_table_register() {
    let r: DtReg<GdtEntry> = DtReg::new(0x7000, 256);
    assert_eq!(r.size, 2048);
    assert_eq!(r.addr, 0x7000);
    let big: DtReg<[u8; 4096]> = DtReg::new(0, 16);
    assert_eq!(big.size, 0);
}

#[test]
fn gate_descriptor_fields() {
    let e = IdtEntry::new(0x1234_5678, 8, INTR_GATE | PRESENT);
    assert_eq!(e.addr_lo, 0x5678);
    assert_eq!(e.addr_hi, 0x1234);
    assert_eq!(e.sel, 8);
    assert_eq!(e.zero, 0);
    assert_eq!(e.flags, 0x8E);
}

#[test]
fn first_kernel_gates() {
    let e = idt::entry(0xDEAD_BEEF, 8, idt::PRESENT);
    assert_eq!(e.addr_lo, 0xBEEF);
    assert_eq!(e.addr_hi, 0xDEAD);
    assert_eq!(e.flags, 0x86);
    let r = idt::reg::new(0x1000);
    assert_eq!(r.size, 2048);
    assert_eq!(r.addr, 0x1000);
}

#[test]
fn maskable_interrupt_is_installed_and_unmasked() {
    let mut t = Table::new();
    assert_eq!(t.irq_mask(), 0xffff);
    assert_eq!(t.entry(0x21).flags, 0);
    let ws = t.enable_maskable(0x21, 0x1234);
    let e = t.entry(0x21);
    assert_eq!((e.addr_lo, e.addr_hi, e.sel, e.flags), (0x1234, 0, 8, 0x8E));
    assert_eq!(t.irq_mask(), 0xfffd);
    assert_eq!(ws.len(), 2);
    assert!(is_write(&ws[0], 0x21, 0xfd, false));
    assert!(is_write(&ws[1], 0xA1, 0xff, false));
    t.enable_maskable(0x2c, 0x5678);
    assert_eq!(t.irq_mask(), 0xeffd);
}

#[test]
fn loading_the_table_remaps_and_masks() {
    let mut t = Table::new();
    t.enable_maskable(0x20, 0x1000);
    let ws = t.load();
    assert_eq!(ws.len(), 10);
    assert!(is_write(&ws[0], 0x20, 0x11, true));
    assert!(is_write(&ws[3], 0xA1, 0x28, true));
    assert!(is_write(&ws[8], 0x21, 0xfe, false));
    assert!(is_write(&ws[9], 0xA1, 0xff, false));
}

#[test]
fn fault_stub_and_gate() {
    let mut t = Table::new();
    let isr = t.set_isr(Fault::PAGE_FAULT, true, 0x1000, 0x2000);
    let e = t.entry(14);
    assert_eq!((e.addr_lo, e.addr_hi, e.flags), (0x1000, 0, 0x8E));
    assert_eq!(isr.push_dummy, 0x90);
    assert_eq!(isr.push, 0x6a);
    assert_eq!(isr.jmp, 0xe9);
    assert_eq!(isr.rel, 0x2000 - 0x1008);
    assert_eq!(t.irq_mask(), 0xffff);
}

#[test]
fn stub_jumps_backwards() {
    let mut isr = Isr::new(Int::Fault(Fault::BREAKPOINT), false);
    assert_eq!(isr.push_dummy, 0x50);
    assert_eq!(isr.rel, -5);
    let e = isr.idt_entry(0x2000, 0x1000);
    assert_eq!(isr.rel, 0x1000 - 0x2008);
    assert_eq!((e.addr_lo, e.addr_hi, e.sel), (0x2000, 0, 8));
}

#[test]
fn fault_vectors() {
    assert_eq!(Fault::DIVIDE_ERROR.vector(), 0);
    assert_eq!(Fault::DOUBLE_FAULT.vector(), 8);
    assert_eq!(Fault::PAGE_FAULT.vector(), 14);
    assert_eq!(Fault::SIMD_FP_EXCEPTION.vector(), 19);
}

#[test]
fn interrupt_controller_writes() {
    let ws = pic::remap();
    assert_eq!(ws.len(), 8);
    assert!(is_write(&ws[0], 0x20, 0x11, true));
    assert!(is_write(&ws[2], 0x21, 0x20, true));
    assert!(is_write(&ws[7], 0xA1, 1, true));
    assert!(is_write(&pic::enable(3, 0xff), 0x21, 0xf7, false));
    assert!(is_write(&pic::enable(10, 0xff), 0xa1, 0xfb, false));
    let m = pic::mask(0x1234);
    assert!(is_write(&m[0], 0x21, 0x34, false));
    assert!(is_write(&m[1], 0xA1, 0x12, false));
}

#[test]
fn exception_reports() {
    assert_eq!(exception_message(3), None);
    assert_eq!(exception_message(259), None);
    assert_eq!(exception_message(0), Some("Divide-by-zero Error"));
    assert_eq!(exception_message(14), Some("Page Fault"));
    assert_eq!(exception_message(20), Some("Virtualization Exception"));
}

#[test]
fn eflags_keep_known_bits() {
    let f = Eflags::from_bits_truncate(0xFFFF_FFFF);
    assert_eq!(f.bits, 0x201);
    assert!(f.contains(IF));
    let g = Eflags::from_bits_truncate(0x202);
    assert_eq!(g.bits, IF);
    assert!(!g.contains(CF));
    assert!(!g.contains(CF | IF));
}
