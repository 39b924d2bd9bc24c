pub mod interrupt;
pub mod mmu;
