//! A size-classed cache over three slab pools.
//!
//! Requests are routed by size alone to the smallest class that fits: up to
//! 64 bytes, up to 256 bytes, or up to 512 bytes. Anything larger fails
//! outright. A freed address must be presented with a size that falls in
//! the same class as the size it was allocated under.

use vstd::prelude::*;

use crate::pool::PoolModel;
use crate::pool::SlabAllocator;
use crate::LARGE_POOL_BASE;
use crate::MEDIUM_POOL_BASE;
use crate::SMALL_POOL_BASE;

verus! {

/// Object size of the small class.
pub const SMALL_CLASS_SIZE: usize = 64;

/// Object size of the medium class.
pub const MEDIUM_CLASS_SIZE: usize = 256;

/// Object size of the large class.
pub const LARGE_CLASS_SIZE: usize = 512;

/// The mathematical model of a [`SlabCache`]: the models of its three
/// size-classed pools.
#[verifier::ext_equal]
pub ghost struct CacheModel {
    /// Pool serving requests of up to 64 bytes.
    pub small: PoolModel,
    /// Pool serving requests of more than 64 and up to 256 bytes.
    pub medium: PoolModel,
    /// Pool serving requests of more than 256 and up to 512 bytes.
    pub large: PoolModel,
}

impl CacheModel {
    /// Well-formedness: three well-formed pools, configured for the three
    /// class sizes, each carving up its own region of the address space.
    pub open spec fn wf(self) -> bool {
        &&& self.small.wf()
        &&& self.small.object_size == SMALL_CLASS_SIZE as int
        &&& self.small.region_base == SMALL_POOL_BASE as int
        &&& self.medium.wf()
        &&& self.medium.object_size == MEDIUM_CLASS_SIZE as int
        &&& self.medium.region_base == MEDIUM_POOL_BASE as int
        &&& self.large.wf()
        &&& self.large.object_size == LARGE_CLASS_SIZE as int
        &&& self.large.region_base == LARGE_POOL_BASE as int
    }
}

/// What one pool's allocation step guarantees: success exactly when the
/// pool has or can make room, the first-fit address on success, and no
/// change on failure.
pub open spec fn pool_alloc_post(pre: PoolModel, post: PoolModel, r: Option<usize>) -> bool {
    &&& (r is Some <==> pre.can_alloc())
    &&& pre.can_alloc() ==> r == Some(pre.alloc_addr() as usize) && post == pre.alloc_next()
    &&& !pre.can_alloc() ==> r is None && post == pre
}

/// Three slab pools behind one interface, picked by request size.
pub struct SlabCache {
    small: SlabAllocator,
    medium: SlabAllocator,
    large: SlabAllocator,
}

impl View for SlabCache {
    type V = CacheModel;

    closed spec fn view(&self) -> CacheModel {
        CacheModel { small: self.small@, medium: self.medium@, large: self.large@ }
    }
}

impl SlabCache {
    /// Builds a cache of three empty pools for object sizes 64, 256 and
    /// 512, each placed at its own region.
    pub fn new() -> (r: SlabCache)
        ensures
            r@.wf(),
            r@.small.slabs.len() == 0,
            r@.medium.slabs.len() == 0,
            r@.large.slabs.len() == 0,
    {
        SlabCache {
            small: SlabAllocator::new_in(SMALL_CLASS_SIZE, SMALL_POOL_BASE),
            medium: SlabAllocator::new_in(MEDIUM_CLASS_SIZE, MEDIUM_POOL_BASE),
            large: SlabAllocator::new_in(LARGE_CLASS_SIZE, LARGE_POOL_BASE),
        }
    }

    /// Routes the request by `size` alone to the smallest class that fits
    /// and allocates from that pool; a request of more than 512 bytes fails
    /// unconditionally.
    ///
    /// The requested `alignment` is not validated: every returned address is
    /// 8-byte aligned, and callers needing more must not use this cache.
    pub fn allocate(&mut self, size: usize, alignment: usize) -> (r: Option<usize>)
        requires
            old(self)@.wf(),
        ensures
            final(self)@.wf(),
            size <= SMALL_CLASS_SIZE ==> pool_alloc_post(
                old(self)@.small,
                final(self)@.small,
                r,
            ) && final(self)@.medium == old(self)@.medium && final(self)@.large == old(
                self,
            )@.large,
            SMALL_CLASS_SIZE < size <= MEDIUM_CLASS_SIZE ==> pool_alloc_post(
                old(self)@.medium,
                final(self)@.medium,
                r,
            ) && final(self)@.small == old(self)@.small && final(self)@.large == old(
                self,
            )@.large,
            MEDIUM_CLASS_SIZE < size <= LARGE_CLASS_SIZE ==> pool_alloc_post(
                old(self)@.large,
                final(self)@.large,
                r,
            ) && final(self)@.small == old(self)@.small && final(self)@.medium == old(
                self,
            )@.medium,
            size > LARGE_CLASS_SIZE ==> r is None && final(self)@ == old(self)@,
    {
        if size <= SMALL_CLASS_SIZE {
            self.small.allocate()
        } else if size <= MEDIUM_CLASS_SIZE {
            self.medium.allocate()
        } else if size <= LARGE_CLASS_SIZE {
            self.large.allocate()
        } else {
            None
        }
    }

    /// Re-derives the size class from the `size` passed here and returns
    /// `ptr` to that class's pool; a size of more than 512 bytes changes
    /// nothing.
    ///
    /// The caller must pass a size in the same class as the size the
    /// address was allocated under, and either an address this cache handed
    /// out and has not taken back since or one lying in none of the routed
    /// pool's blocks; the design relies on that contract and cannot check
    /// it.
    pub fn deallocate(&mut self, ptr: usize, size: usize, alignment: usize)
        requires
            old(self)@.wf(),
            size <= SMALL_CLASS_SIZE ==> old(self)@.small.can_dealloc(ptr as int),
            SMALL_CLASS_SIZE < size <= MEDIUM_CLASS_SIZE ==> old(self)@.medium.can_dealloc(
                ptr as int,
            ),
            MEDIUM_CLASS_SIZE < size <= LARGE_CLASS_SIZE ==> old(self)@.large.can_dealloc(
                ptr as int,
            ),
        ensures
            final(self)@.wf(),
            size <= SMALL_CLASS_SIZE ==> final(self)@ == (CacheModel {
                small: old(self)@.small.dealloc_next(ptr as int),
                ..old(self)@
            }),
            SMALL_CLASS_SIZE < size <= MEDIUM_CLASS_SIZE ==> final(self)@ == (CacheModel {
                medium: old(self)@.medium.dealloc_next(ptr as int),
                ..old(self)@
            }),
            MEDIUM_CLASS_SIZE < size <= LARGE_CLASS_SIZE ==> final(self)@ == (CacheModel {
                large: old(self)@.large.dealloc_next(ptr as int),
                ..old(self)@
            }),
            size > LARGE_CLASS_SIZE ==> final(self)@ == old(self)@,
    {
        if size <= SMALL_CLASS_SIZE {
            self.small.deallocate(ptr);
        } else if size <= MEDIUM_CLASS_SIZE {
            self.medium.deallocate(ptr);
        } else if size <= LARGE_CLASS_SIZE {
            self.large.deallocate(ptr);
        }
    }
}

} // verus!
