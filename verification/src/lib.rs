//! A small x86 kernel's core logic: the buddy allocator that hands out
//! physical frames and heap memory, page-table and descriptor-table entries,
//! the text console and keyboard decoding.
use vstd::prelude::*;

pub mod arch;
pub mod kernel;
pub mod vga;

verus! {

} // verus!
