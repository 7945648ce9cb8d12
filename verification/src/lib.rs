//! The core of a small kernel's boot phase.
//!
//! Memory management before any heap exists: a self-referential view of the
//! active page table, a coarse block allocator for physical memory, and the
//! mapping requests that are built on both. Beside it, what the boot screen
//! needs, a frame buffer in main memory and text drawn with a bitmap font
//! that is read from a BDF file, and the entry of the ELF loader.

pub mod bdf;
pub mod elf_load;
pub mod frame;
pub mod graphics;
pub mod kernel_alloc;
pub mod mapper;
pub mod paging;
pub mod x86;
