pub mod cpu;
pub mod drivers;
pub mod io;
pub mod runtime;
