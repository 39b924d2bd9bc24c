pub mod allocator;
pub mod physical;
pub mod tree;
