//! Identity paging of the first 4 MiB with one directory and one table.
use vstd::prelude::*;

verus! {

pub const PRESENT: u32 = 1 << 0;
pub const RW: u32 = 1 << 1;
pub const USER: u32 = 1 << 2;

/// Entries of a page directory or table.
pub const ENTRIES: usize = 1024;

/// The page table mapping the first 1024 frames onto themselves, present,
/// writable and open to user code, and the directory whose first entry names
/// that table (stored at `table_addr`) and whose other entries are empty.
pub fn identity(table_addr: u32) -> (r: (Vec<u32>, Vec<u32>))
    ensures
        r.0@.len() == ENTRIES,
        r.1@.len() == ENTRIES,
        r.0@[0] == table_addr | PRESENT | RW | USER,
        forall|i: int| 1 <= i < ENTRIES ==> #[trigger] r.0@[i] == 0,
        forall|i: int| 0 <= i < ENTRIES ==> #[trigger] r.1@[i] == (i * 4096) as u32 | PRESENT | RW | USER,
{
    let mut table: Vec<u32> = Vec::new();
    let mut i: usize = 0;
    while i < ENTRIES
        invariant
            i <= ENTRIES,
            table@.len() == i,
            forall|j: int| 0 <= j < i ==> #[trigger] table@[j] == (j * 4096) as u32 | PRESENT | RW | USER,
        decreases ENTRIES - i,
    {
        table.push((i as u32) * 4096 | PRESENT | RW | USER);
        i = i + 1;
    }
    let mut dir: Vec<u32> = Vec::new();
    let mut i: usize = 0;
    while i < ENTRIES
        invariant
            i <= ENTRIES,
            dir@.len() == i,
            forall|j: int| 0 <= j < i ==> #[trigger] dir@[j] == 0,
        decreases ENTRIES - i,
    {
        dir.push(0);
        i = i + 1;
    }
    dir.set(0, table_addr | PRESENT | RW | USER);
    (dir, table)
}

} // verus!
