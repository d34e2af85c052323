//! Memory-management core of a small 32-bit protected-mode kernel.
//!
//! The crate holds the three layers that the kernel stacks on top of each
//! other (a physical frame bitmap, a page directory with its page tables and
//! a free-list heap), the parser for the boot loader's information block and
//! the descriptor tables that have to be in place before paging is switched
//! on. Memory is modelled as plain data, so every operation is a function
//! from values to values.

pub mod bits;
pub mod physical_memory_management;
pub mod virtual_memory_management;
pub mod dynamic_memory_management;
pub mod gdt;
pub mod multiboot_info;
pub mod io_port;
pub mod keyboard;
pub mod pic;
pub mod boot_information;
pub mod writer;
pub mod ps2;
pub mod shell;
pub mod external_symbols;
