//! User processes.
use vstd::prelude::*;
use crate::kernel::mm::physical::Phys;

verus! {

/// A process: where it resumes and its page directory.
pub struct Process {
    pub eip: u32,
    pub esp: u32,
    pub paging: Phys,
}

impl Process {
    /// A process that starts at address 0 with a zero stack pointer, running
    /// in the page directory `paging` (a copy of the current one).
    pub fn new(paging: Phys) -> (p: Process)
        ensures
            p.eip == 0,
            p.esp == 0,
            p.paging == paging,
    {
        Process { eip: 0, esp: 0, paging }
    }

    /// What entering the process takes: the CR3 value that switches to its
    /// page directory, and the instruction and stack pointers to jump with.
    pub fn enter(&self) -> (r: (usize, u32, u32))
        ensures
            r.0 == self.paging.addr(),
            r.1 == self.eip,
            r.2 == self.esp,
    {
        let cr3 = crate::arch::x86::cpu::mmu::switch_directory(&self.paging);
        (cr3, self.eip, self.esp)
    }
}

} // verus!
