//! The interface of the kernel's general-purpose allocator, which hands out
//! memory on behalf of processes. Nothing here implements it.

use vstd::prelude::*;

verus! {

/// A piece of memory that was handed out.
#[derive(Clone, Copy, Debug, PartialEq, Eq, Structural)]
pub struct MemoryRegion {
    /// Address of the first byte.
    pub start: u64,
    /// Number of bytes.
    pub size: u64,
}

/// What backs `kmalloc` and `kfree`: memory by size and alignment, charged
/// to a process.
pub trait KernelMemoryAllocator {
    /// The handle of a process; the allocator alone knows what is in it.
    type Process;

    type AllocErrorType;

    type FreeErrorType;

    /// Hands out `size` bytes that start at a multiple of `alignment`, on
    /// behalf of `process`.
    fn allocate(&self, size: u64, alignment: u64, process: &Self::Process) -> (region: Result<
        MemoryRegion,
        Self::AllocErrorType,
    >)
        ensures
            region matches Ok(r) ==> r.size == size && (alignment != 0 ==> r.start % alignment == 0),
    ;

    /// Takes back the region that starts at `address`, which was handed out
    /// on behalf of `process`.
    fn free(&self, address: u64, process: &Self::Process) -> Result<(), Self::FreeErrorType>;
}

} // verus!
