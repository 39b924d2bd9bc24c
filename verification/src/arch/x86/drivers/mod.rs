pub mod keyboard;
pub mod pic;
pub mod vga;
