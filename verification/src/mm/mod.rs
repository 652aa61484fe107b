//! Virtual memory: addresses, the frame allocator, page tables and address spaces.
pub mod access;
pub mod address;
pub mod builder;
pub mod elf;
pub mod frame_allocator;
pub mod memory_set;
pub mod ownership;
pub mod page_table;
pub mod spaces;
