//! A fixed-size-object slab allocator for environments without a
//! general-purpose heap.
//!
//! The stack has three layers:
//!
//! - [`Slab`] manages one fixed-size block of the address space, carved into
//!   equal-sized slots and tracked by a free list of slot indices.
//! - [`SlabAllocator`] owns a bounded pool of slabs sharing one object size,
//!   created lazily in first-fit order.
//! - [`SlabCache`] routes requests to one of three size-classed pools
//!   (up to 64, 256 and 512 bytes).
//!
//! The library does the allocator's bookkeeping over plain addresses: a slab
//! records the base address of the block it manages and hands out slot
//! addresses inside it. A runtime that wires this in pairs each block base
//! with memory actually reserved from its raw memory provider; `new` places
//! blocks at fixed default bases, while `new_at` / `new_in` let the caller
//! choose where a block or a pool region stands.

use vstd::prelude::*;

mod cache;
mod pool;
mod slab;

pub use cache::CacheModel;
pub use cache::SlabCache;
pub use pool::PoolModel;
pub use pool::SlabAllocator;
pub use slab::Slab;
pub use slab::SlabModel;

verus! {

/// Size in bytes of the block managed by one slab.
pub const SLAB_SIZE: usize = 4096;

/// Largest object size a slab can be built for.
pub const MAX_OBJECT_SIZE: usize = 512;

/// Hard ceiling on the number of slabs in one pool.
pub const MAX_SLABS: usize = 16;

/// Alignment guaranteed for every slot address.
pub const SLOT_ALIGN: usize = 8;

/// Bytes a free slot must be able to hold for the free-list link of the
/// classical intrusive layout this bookkeeping stands for.
pub const FREE_LINK_SIZE: usize = 8;

/// Block base used by `Slab::new` for a standalone slab.
pub const DEFAULT_SLAB_BASE: usize = 0x1_0000;

/// Region base used by `SlabAllocator::new` for a standalone pool.
pub const DEFAULT_POOL_BASE: usize = 0x2_0000;

/// Region base of the small (up to 64 byte) class of a `SlabCache`.
pub const SMALL_POOL_BASE: usize = 0x10_0000;

/// Region base of the medium (up to 256 byte) class of a `SlabCache`.
pub const MEDIUM_POOL_BASE: usize = 0x11_0000;

/// Region base of the large (up to 512 byte) class of a `SlabCache`.
pub const LARGE_POOL_BASE: usize = 0x12_0000;

} // verus!
