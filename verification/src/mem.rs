//! Regions of the guest's physical memory.

use vstd::prelude::*;

verus! {

/// A range of physical addresses.
#[derive(Clone, Copy, Debug, PartialEq, Eq, Structural)]
pub struct MemoryRegion {
    /// The first address.
    pub base: u64,
    /// The number of bytes.
    pub length: u64,
}

impl MemoryRegion {
    /// The region of `length` bytes from `base` on.
    pub fn new(base: u64, length: u64) -> (region: Self)
        ensures
            region == (MemoryRegion { base, length }),
    {
        MemoryRegion { base, length }
    }
}

} // verus!
