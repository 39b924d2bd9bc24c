use rustboot::arch::arm::cpu::interrupt::{branch, Int, Table, VECTORS};
use rustboot::arch::arm::cpu::mmu::{
    cpu_domain, enable_paging, switch_directory, Descriptor, PageDirectory, RW, SECTION,
};
use rustboot::kernel::mm::physical::Phys;

#[test]
fn branch_encoding() {
    assert_eq!(branch(0), 0xeafffffe);
    assert_eq!(branch(8), 0xea000000);
    assert_eq!(branch(0x8000), 0xea001ffe);
}

#[test]
fn vector_table_loads_reset_and_debug_handlers() {
    let mut t = Table::new();
    for i in 0..VECTORS {
        assert_eq!(t.word(i), 0);
    }
    t.load(0x8000, 0x9000);
    assert_eq!(t.word(0), 0xea001ffe);
    assert_eq!(t.word(1), 0xea0023fd);
    for i in 2..VECTORS {
        assert_eq!(t.word(i), 0xeafffffe);
    }
}

#[test]
fn enabling_a_vector_branches_to_its_handler() {
    let mut t = Table::new();
    t.enable(Int::IRQ, 0x100);
    assert_eq!(t.word(6), 0xea000038);
    assert_eq!(t.word(5), 0);
    assert_eq!(Int::FIQ.vector(), 7);
    assert_eq!(Int::SWI.vector(), 2);
}

#[test]
fn section_descriptor() {
    let d = Descriptor::section(0x0010_0000, RW);
    assert_eq!(d.0, 0x0010_0412);
    assert_eq!(Descriptor::section(0, 0).0, SECTION);
    let dir = PageDirectory { entries: vec![d] };
    assert_eq!(dir.entries[0].0, 0x0010_0412);
}

#[test]
fn domain_and_control_register_values() {
    assert_eq!(cpu_domain(), 0xF);
    assert_eq!(switch_directory(&Phys::at(0x4000)), (0xF, 0x4000));
    assert_eq!(enable_paging(0), 0x1105);
    assert_eq!(enable_paging(0xFFFF_FFFF), 0xFFFF_91C5);
}
