pub mod elf;
pub mod heap;
pub mod idt;
pub mod integer;
pub mod mm;
pub mod process;
pub mod util;
