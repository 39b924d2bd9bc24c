pub mod bitv;
