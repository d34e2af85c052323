//! A simple heap
//!
//! A free list of chunks over a range of addresses that grows and shrinks
//! page by page, each page backed by a frame of physical memory.

pub mod allocator;
pub mod brk;
pub mod laws;
