//! A tiered (buddy-style) allocator for allocations finer than whole pages.
//! Only the entry checks are in place; the split/merge machinery is future
//! work, as it was left in the kernel.

use crate::allocator::AllocatorError;
use crate::{is_pow2, PAGE_SIZE};
use vstd::prelude::*;

verus! {

/// One node of the buddy tree: a region either split in two halves or
/// allocated whole.
pub struct BuddyTree {
    pub left: Option<Box<BuddyTree>>,
    pub right: Option<Box<BuddyTree>>,
    pub alloc_addr: usize,
}

/// The buddy allocator over a page-aligned base address.
pub struct BuddySystem {
    base: usize,
}

impl BuddySystem {
    /// The base address the system was created over.
    pub closed spec fn base_addr(self) -> usize {
        self.base
    }

    /// Create a buddy system over `base`; a base off a page boundary is
    /// rejected.
    pub fn init(base: usize) -> (r: Result<Self, AllocatorError>)
        ensures
            match r {
                Ok(b) => base % PAGE_SIZE == 0 && b.base_addr() == base,
                Err(e) => base % PAGE_SIZE != 0 && e == (AllocatorError::AddrNotAligned {
                    addr: base,
                    align: PAGE_SIZE,
                }),
            },
    {
        if base % PAGE_SIZE != 0 {
            return Err(AllocatorError::AddrNotAligned { addr: base, align: PAGE_SIZE });
        }

        Ok(BuddySystem { base })
    }

    /// Allocate `bytes` bytes; only power-of-two sizes are accepted.
    pub fn allocate(&mut self, bytes: usize) -> (r: Result<usize, AllocatorError>)
        ensures
            match r {
                Ok(addr) => is_pow2(bytes) && addr == 0,
                Err(e) => !is_pow2(bytes) && e == (AllocatorError::InvalidSize { size: bytes }),
            },
    {
        if !(bytes != 0 && (bytes & (bytes - 1)) == 0) {
            return Err(AllocatorError::InvalidSize { size: bytes });
        }

        Ok(0)
    }
}

} // verus!
