use slab_allocator::Slab;
use slab_allocator::SlabAllocator;
use slab_allocator::SlabCache;
use slab_allocator::DEFAULT_SLAB_BASE;
use slab_allocator::MAX_OBJECT_SIZE;
use slab_allocator::SLAB_SIZE;

#[test]
fn test_slab_creation() {
    let slab = Slab::new(64);
    assert!(slab.is_some());
    let slab = slab.unwrap();
    assert_eq!(slab.object_size(), 64);
    assert!(slab.capacity() > 0);
    assert!(slab.is_empty());
}

#[test]
fn test_slab_allocate_deallocate() {
    let mut slab = Slab::new(64).unwrap();
    let ptr = slab.allocate();
    assert!(ptr.is_some());
    assert!(!slab.is_empty());

    let ptr = ptr.unwrap();
    slab.deallocate(ptr);
    assert!(slab.is_empty());
}

#[test]
fn test_slab_multiple_allocations() {
    let mut slab = Slab::new(64).unwrap();
    let mut ptrs = Vec::new();

    for _ in 0..10 {
        if let Some(ptr) = slab.allocate() {
            ptrs.push(ptr);
        }
    }

    assert_eq!(ptrs.len(), 10);
    assert_eq!(slab.allocated(), 10);

    for ptr in ptrs {
        slab.deallocate(ptr);
    }

    assert!(slab.is_empty());
}

#[test]
fn test_slab_full() {
    let mut slab = Slab::new(64).unwrap();
    let capacity = slab.capacity();
    let mut ptrs = Vec::new();

    for _ in 0..capacity {
        if let Some(ptr) = slab.allocate() {
            ptrs.push(ptr);
        }
    }

    assert!(slab.is_full());
    assert!(slab.allocate().is_none());

    slab.deallocate(ptrs[0]);
    assert!(!slab.is_full());
}

#[test]
fn test_slab_contains() {
    let mut slab = Slab::new(64).unwrap();
    let ptr = slab.allocate().unwrap();
    assert!(slab.contains(ptr));

    let external: usize = 0x1000;
    assert!(!slab.contains(external));
}

#[test]
fn test_allocator_basic() {
    let mut allocator = SlabAllocator::new(64);
    let ptr = allocator.allocate();
    assert!(ptr.is_some());

    let ptr = ptr.unwrap();
    allocator.deallocate(ptr);
}

#[test]
fn test_allocator_multiple_slabs() {
    let mut allocator = SlabAllocator::new(64);
    let mut ptrs = Vec::new();

    for _ in 0..200 {
        if let Some(ptr) = allocator.allocate() {
            ptrs.push(ptr);
        }
    }

    assert!(ptrs.len() >= 100);

    for ptr in ptrs {
        allocator.deallocate(ptr);
    }
}

#[test]
fn test_cache_small_allocation() {
    let mut cache = SlabCache::new();
    let ptr = cache.allocate(32, 8);
    assert!(ptr.is_some());

    let ptr = ptr.unwrap();
    cache.deallocate(ptr, 32, 8);
}

#[test]
fn test_cache_medium_allocation() {
    let mut cache = SlabCache::new();
    let ptr = cache.allocate(128, 8);
    assert!(ptr.is_some());

    let ptr = ptr.unwrap();
    cache.deallocate(ptr, 128, 8);
}

#[test]
fn test_cache_large_allocation() {
    let mut cache = SlabCache::new();
    let ptr = cache.allocate(400, 8);
    assert!(ptr.is_some());

    let ptr = ptr.unwrap();
    cache.deallocate(ptr, 400, 8);
}

#[test]
fn test_cache_oversized() {
    let mut cache = SlabCache::new();
    let ptr = cache.allocate(1024, 8);
    assert!(ptr.is_none());
}

#[test]
fn test_zero_size() {
    let slab = Slab::new(0);
    assert!(slab.is_none());
}

#[test]
fn test_large_object() {
    let slab = Slab::new(MAX_OBJECT_SIZE + 1);
    assert!(slab.is_none());
}

#[test]
fn test_alignment() {
    let mut slab = Slab::new(17).unwrap();
    let ptr = slab.allocate().unwrap();
    let addr = ptr;
    assert_eq!(addr % 8, 0);
}

#[test]
fn test_reuse_freed_memory() {
    let mut slab = Slab::new(64).unwrap();
    let ptr1 = slab.allocate().unwrap();
    let addr1 = ptr1;

    slab.deallocate(ptr1);

    let ptr2 = slab.allocate().unwrap();
    let addr2 = ptr2;

    assert_eq!(addr1, addr2);
}

#[test]
fn test_construction_bounds() {
    for size in [1, 2, 7, 8, 17, 63, 64, 65, 255, 256, 257, 511, 512] {
        let slab = Slab::new(size);
        assert!(slab.is_some());
        let slab = slab.unwrap();
        assert!(slab.capacity() >= 1);
        assert!(slab.capacity() * slab.object_size() <= SLAB_SIZE);
        assert!(slab.object_size() >= size);
        assert_eq!(slab.object_size() % 8, 0);
    }
    assert!(Slab::new(0).is_none());
    assert!(Slab::new(513).is_none());
}

#[test]
fn test_aligned_size_values() {
    assert_eq!(Slab::new(17).unwrap().object_size(), 24);
    assert_eq!(Slab::new(1).unwrap().object_size(), 8);
    assert_eq!(Slab::new(8).unwrap().object_size(), 8);
    assert_eq!(Slab::new(9).unwrap().object_size(), 16);
    assert_eq!(Slab::new(512).unwrap().object_size(), 512);
    assert_eq!(Slab::new(64).unwrap().capacity(), 64);
    assert_eq!(Slab::new(17).unwrap().capacity(), 170);
    assert_eq!(Slab::new(512).unwrap().capacity(), 8);
}

#[test]
fn test_fresh_slab_distinct_addresses() {
    let mut slab = Slab::new(64).unwrap();
    let capacity = slab.capacity();
    let mut ptrs = Vec::new();

    for _ in 0..capacity {
        let ptr = slab.allocate();
        assert!(ptr.is_some());
        ptrs.push(ptr.unwrap());
    }
    assert!(slab.allocate().is_none());

    // Ascending, a whole slot apart, all inside the block.
    for i in 1..ptrs.len() {
        assert!(ptrs[i] >= ptrs[i - 1] + 64);
    }
    for &p in &ptrs {
        assert!(slab.contains(p));
        assert_eq!(p % 8, 0);
    }
    assert_eq!(ptrs[0], DEFAULT_SLAB_BASE);
}

#[test]
fn test_allocator_capacity_ceiling() {
    let mut allocator = SlabAllocator::new(64);
    // 16 slabs of 64 slots each.
    for _ in 0..(16 * 64) {
        assert!(allocator.allocate().is_some());
    }
    assert!(allocator.allocate().is_none());
}

#[test]
fn test_allocator_invalid_object_size() {
    let mut zero = SlabAllocator::new(0);
    assert!(zero.allocate().is_none());

    let mut big = SlabAllocator::new(600);
    assert!(big.allocate().is_none());
}

#[test]
fn test_allocator_release_all_then_reallocate() {
    let mut allocator = SlabAllocator::new(64);
    let mut ptrs = Vec::new();
    for _ in 0..200 {
        if let Some(ptr) = allocator.allocate() {
            ptrs.push(ptr);
        }
    }
    assert!(ptrs.len() >= 100);
    for &ptr in &ptrs {
        allocator.deallocate(ptr);
    }
    // Everything was released, so allocation succeeds again at once.
    let again = allocator.allocate();
    assert!(again.is_some());
    // First fit reuses the first slab rather than building a new one.
    assert!(ptrs.contains(&again.unwrap()));
}

#[test]
fn test_cache_class_routing_roundtrip() {
    let mut cache = SlabCache::new();
    for size in [32, 128, 400] {
        let ptr = cache.allocate(size, 8);
        assert!(ptr.is_some());
        let ptr = ptr.unwrap();
        cache.deallocate(ptr, size, 8);
        // The slot is available again at once; LIFO hands back the same one.
        let again = cache.allocate(size, 8);
        assert_eq!(again, Some(ptr));
        cache.deallocate(again.unwrap(), size, 8);
    }
    assert!(cache.allocate(1024, 8).is_none());
}

#[test]
fn test_cache_classes_are_disjoint() {
    let mut cache = SlabCache::new();
    let small = cache.allocate(32, 8).unwrap();
    let medium = cache.allocate(128, 8).unwrap();
    let large = cache.allocate(400, 8).unwrap();
    assert_ne!(small, medium);
    assert_ne!(small, large);
    assert_ne!(medium, large);
}

#[test]
fn test_all_addresses_aligned() {
    let mut slab = Slab::new(40).unwrap();
    for _ in 0..5 {
        assert_eq!(slab.allocate().unwrap() % 8, 0);
    }

    let mut allocator = SlabAllocator::new(24);
    for _ in 0..300 {
        assert_eq!(allocator.allocate().unwrap() % 8, 0);
    }

    let mut cache = SlabCache::new();
    for size in [1, 17, 64, 65, 100, 256, 257, 512] {
        assert_eq!(cache.allocate(size, 8).unwrap() % 8, 0);
    }
}
