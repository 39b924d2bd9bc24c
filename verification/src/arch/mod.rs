pub mod arm;
pub mod x86;
