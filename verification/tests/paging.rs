use rustboot::arch::x86::cpu::mmu::{
    enable_paging, switch_directory, Page, Table, ACCESSED, PRESENT, RW, USER, CR0_PG,
};
use rustboot::arch::x86::cpu::paging::identity;
use rustboot::kernel::mm::allocator::{Alloc, Allocator, BuddyAlloc};
use rustboot::kernel::mm::physical::{alloc_frames, free_frames, zero_alloc_frames, Phys};
use rustboot::kernel::util::bitv::Bitv;

#[test]
fn page_entry_for_a_frame() {
    let p = Page::new(Phys::at(0x3000), PRESENT | RW);
    assert_eq!(p.0, 0x3003);
    assert_eq!(p.physical().as_ptr(), 0x3000);
    assert!(p.is_present());
    assert!(p.contains(RW));
    assert!(!p.contains(USER));
    assert!(p.contains(PRESENT | RW));
    assert_eq!(p.bitor(USER).0, 0x3007);
}

#[test]
fn page_at_frame_number() {
    assert_eq!(Page::at_frame(5, PRESENT).0, 0x5001);
    assert_eq!(Page::at_frame(0, 0).0, 0);
    assert!(!Page::at_frame(7, RW).is_present());
}

#[test]
fn page_frame_round_trip() {
    for addr in [0u32, 0x1000, 0xABCD_E000, 0xFFFF_F000].iter() {
        for flags in [0u32, 1, 0x27, 0xFFF].iter() {
            let p = Page::new(Phys::at(*addr), *flags);
            assert_eq!(p.physical().as_ptr(), *addr as usize);
            assert!(p.contains(*flags));
        }
    }
}

#[test]
fn page_shows_address_and_flags() {
    assert_eq!(Page(0x3023).show(), (0x3000, 'P', 'R', ' ', 'A'));
    assert_eq!(Page(0x5004).show(), (0x5000, ' ', ' ', 'U', ' '));
    assert_eq!(Page(ACCESSED).show(), (0, ' ', ' ', ' ', 'A'));
}

#[test]
fn table_get_after_set() {
    let mut t = Table::page_table();
    t.set(0x5000, Page(0x9003));
    assert_eq!(t.get(0x5000).0, 0x9003);
    assert_eq!(t.get(0x5FFF).0, 0x9003);
    assert_eq!(t.get(0x6000).0, 0);
    // addresses 4 MiB apart share the entry of a page table
    assert_eq!(t.get(0x405000).0, 0x9003);
}

#[test]
fn directory_entries_span_four_megabytes() {
    let mut d = Table::page_directory();
    d.set_addr(0x0040_0000, Phys::at(0x7000), PRESENT | RW);
    assert_eq!(d.get(0x0040_0000).0, 0x7003);
    assert_eq!(d.get(0x007F_FFFF).0, 0x7003);
    assert_eq!(d.get(0x0080_0000).0, 0);
    assert_eq!(d.get(0).0, 0);
}

#[test]
fn identity_map_fills_the_table() {
    let mut t = Table::page_table();
    t.identity_map(0, PRESENT | RW);
    assert_eq!(t.get(0).0, 0x3);
    assert_eq!(t.get(0x2000).0, 0x2003);
    assert_eq!(t.get(0x3FF000).0, 0x3FF003);
    let mut u = Table::page_table();
    u.identity_map(1024, PRESENT);
    assert_eq!(u.get(0).0, 0x40_0001);
}

#[test]
fn directory_maps_itself() {
    let mut d = Table::page_directory();
    d.map_self(Phys::at(0x7000));
    assert_eq!(d.get(0xFFFF_F000).0, 0x7003);
    assert_eq!(d.get(0xFFC0_0000).0, 0x7003);
    assert_eq!(d.get(0).0, 0);
}

fn frames() -> Alloc {
    // four 4 KiB frames from 0x10000
    Alloc::new(BuddyAlloc::new(2, Bitv::new(1)), 0x10000, 12)
}

#[test]
fn fetch_table_takes_a_fresh_zeroed_frame_once() {
    let mut d = Table::page_directory();
    let mut f = frames();
    let mut mem = vec![0x55u8; 4 * 4096];
    let t = d.fetch_table(0x0040_1000, PRESENT | RW, &mut f, &mut mem);
    assert_eq!(t.as_ptr(), 0x10000);
    assert_eq!(d.get(0x0040_0000).0, 0x10003);
    assert!(mem[..4096].iter().all(|b| *b == 0));
    assert!(mem[4096..].iter().all(|b| *b == 0x55));
    // present now: the same table comes back and no frame is taken
    let t2 = d.fetch_table(0x0040_2000, PRESENT | RW, &mut f, &mut mem);
    assert_eq!(t2.as_ptr(), 0x10000);
    assert_eq!(alloc_frames(&mut f, 1).as_ptr(), 0x11000);
}

#[test]
fn frames_come_and_go() {
    let mut f = frames();
    let a = alloc_frames(&mut f, 1);
    let b = alloc_frames(&mut f, 2);
    assert_eq!(a.as_ptr(), 0x10000);
    assert_eq!(b.as_ptr(), 0x12000);
    free_frames(&mut f, a);
    assert_eq!(alloc_frames(&mut f, 1).as_ptr(), 0x10000);
    let mut mem = vec![1u8; 4 * 4096];
    let c = zero_alloc_frames(&mut f, 1, &mut mem);
    assert_eq!(c.as_ptr(), 0x11000);
    assert!(mem[0x1000..0x2000].iter().all(|b| *b == 0));
    assert!(mem[..0x1000].iter().all(|b| *b == 1));
    assert!(mem[0x2000..].iter().all(|b| *b == 1));
    assert_eq!(f.allocate(1), (0x10000, 0));
}

#[test]
fn physical_addresses() {
    let n = Phys::null();
    assert!(n.is_null());
    assert_eq!(n.to_option(), None);
    let p = Phys::at(0x1234);
    assert!(!p.is_null());
    assert_eq!(p.to_uint(), 0x1234);
    assert_eq!(p.to_option(), Some(0x1234));
    assert_eq!(p.offset(), 0x1234);
}

#[test]
fn control_register_values() {
    assert_eq!(switch_directory(&Phys::at(0x9000)), 0x9000);
    assert_eq!(enable_paging(0x11), 0x8000_0011);
    assert_eq!(enable_paging(CR0_PG), CR0_PG);
}

#[test]
fn identity_paging_of_the_first_four_megabytes() {
    let (dir, table) = identity(0x5000);
    assert_eq!(dir.len(), 1024);
    assert_eq!(table.len(), 1024);
    assert_eq!(dir[0], 0x5007);
    assert!(dir[1..].iter().all(|e| *e == 0));
    assert_eq!(table[0], 0x7);
    assert_eq!(table[3], 0x3007);
    assert_eq!(table[1023], 0x3FF007);
}

#[test]
fn directory_copy_shares_the_user_half() {
    let mut d = Table::page_directory();
    d.set(0x0040_0000, Page(0x5003));
    d.set(0xBFC0_0000, Page(0x8003));
    d.set(0xC000_0000, Page(0x6003));
    let mut f = frames();
    let mut mem = vec![9u8; 4 * 4096];
    let (phys, c) = d.clone(&mut f, &mut mem);
    assert_eq!(phys.as_ptr(), 0x10000);
    assert_eq!(c.get(0x0040_0000).0, 0x5003);
    assert_eq!(c.get(0xBFC0_0000).0, 0x8003);
    assert_eq!(c.get(0xC000_0000).0, 0);
    assert_eq!(c.get(0xFFFF_F000).0, 0x10003);
    assert!(mem[..4096].iter().all(|b| *b == 0));
    assert!(mem[4096..].iter().all(|b| *b == 9));
}

fn eight_frames() -> Alloc {
    Alloc::new(BuddyAlloc::new(3, Bitv::new(1)), 0x10000, 12)
}

fn word_at(mem: &[u8], at: usize) -> u32 {
    u32::from_le_bytes([mem[at], mem[at + 1], mem[at + 2], mem[at + 3]])
}

#[test]
fn set_page_writes_into_a_present_table() {
    let mut d = Table::page_directory();
    d.set(0x0080_0000, Page(0x12003));
    let mut f = eight_frames();
    let mut mem = vec![0xAAu8; 8 * 4096];
    assert_eq!(d.set_page(0x0080_1000, Phys::at(0x5000), RW, &mut f, &mut mem), 0x0080_1000);
    assert_eq!(word_at(&mem, 0x2004), 0x5002);
    assert_eq!(mem[0x2003], 0xAA);
    assert_eq!(mem[0x2008], 0xAA);
    assert_eq!(d.get(0x0080_0000).0, 0x12003);
    assert_eq!(f.allocate(8), (0x10000, 0x8000));
}

#[test]
fn map_frame_makes_a_table_when_needed() {
    let mut d = Table::page_directory();
    let mut f = eight_frames();
    let mut mem = vec![0xAAu8; 8 * 4096];
    d.map_frame(0x0040_2000, RW, &mut f, &mut mem);
    // the frame is 0x10000, the new table 0x11000
    assert_eq!(d.get(0x0040_0000).0, 0x11003);
    assert_eq!(word_at(&mem, 0x1008), 0x10003);
    assert!(mem[0x1000..0x1008].iter().all(|b| *b == 0));
    assert!(mem[0x100C..0x2000].iter().all(|b| *b == 0));
    assert!(mem[..0x1000].iter().all(|b| *b == 0xAA));
    assert!(mem[0x2000..].iter().all(|b| *b == 0xAA));
}

#[test]
fn map_takes_a_frame_per_page() {
    let mut d = Table::page_directory();
    let mut f = eight_frames();
    let mut mem = vec![0u8; 8 * 4096];
    d.map(0x0040_0000, 0x3000, RW, &mut f, &mut mem);
    // frame 0x10000 for the first page, then the table at 0x11000, then
    // frames 0x12000 and 0x13000
    assert_eq!(d.get(0x0040_0000).0, 0x11003);
    assert_eq!(word_at(&mem, 0x1000), 0x10003);
    assert_eq!(word_at(&mem, 0x1004), 0x12003);
    assert_eq!(word_at(&mem, 0x1008), 0x13003);
    assert_eq!(word_at(&mem, 0x100C), 0);
    // a partial page still takes a frame
    d.map(0x0040_3000, 1, PRESENT, &mut f, &mut mem);
    assert_eq!(word_at(&mem, 0x100C), 0x14001);
    d.map(0x0040_4000, 0, PRESENT, &mut f, &mut mem);
    assert_eq!(word_at(&mem, 0x1010), 0);
    assert_eq!(f.allocate(1), (0x15000, 0x1000));
}

#[test]
fn map_into_enters_each_frame_in_both_directories() {
    let mut d = Table::page_directory();
    let mut c = Table::page_directory();
    let mut f = eight_frames();
    let mut mem = vec![0xEEu8; 8 * 4096];
    d.map_into(&mut c, 0x0040_0000, 0x2000, RW, &mut f, &mut mem);
    // first page: frame 0x10000, then a table for each directory
    assert_eq!(d.get(0x0040_0000).0, 0x11003);
    assert_eq!(c.get(0x0040_0000).0, 0x12003);
    assert_eq!(word_at(&mem, 0x1000), 0x10003);
    assert_eq!(word_at(&mem, 0x2000), 0x10003);
    // second page: frame 0x13000, in both tables
    assert_eq!(word_at(&mem, 0x1004), 0x13003);
    assert_eq!(word_at(&mem, 0x2004), 0x13003);
    assert_eq!(word_at(&mem, 0x1008), 0);
    assert!(mem[0x3000..0x4000].iter().all(|b| *b == 0xEE));
}
