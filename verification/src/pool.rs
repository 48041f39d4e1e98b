//! A bounded pool of slabs sharing one object size.
//!
//! Slabs populate the pool lazily, left to right, each managing the next
//! [`SLAB_SIZE`] block of the pool's region; once created a slab is never
//! removed. Allocation is first-fit: the first slab with room serves the
//! request, and only when every existing slab is full is a new one built.

use vstd::prelude::*;

use crate::slab::align_size_spec;
use crate::slab::fresh_slab;
use crate::slab::lemma_alloc_addr_in_block;
use crate::slab::lemma_allocate_then_free;
use crate::slab::lemma_can_free_means_allocated;
use crate::slab::lemma_construction_bounds;
use crate::slab::Slab;
use crate::slab::SlabModel;
use crate::DEFAULT_POOL_BASE;
use crate::MAX_OBJECT_SIZE;
use crate::MAX_SLABS;
use crate::SLAB_SIZE;
use crate::SLOT_ALIGN;

verus! {

/// The mathematical model of a [`SlabAllocator`]: the requested object size,
/// the base of the address region its slabs carve up, and the models of the
/// slabs created so far, in creation order.
#[verifier::ext_equal]
pub ghost struct PoolModel {
    /// Object size the pool was configured with, as requested (unaligned).
    pub object_size: int,
    /// First address of the region the pool places its slab blocks in.
    pub region_base: int,
    /// Models of the slabs created so far, in creation order.
    pub slabs: Seq<SlabModel>,
}

/// Index of the first slab with a free slot, or -1 if every slab is full
/// (first-fit order).
pub open spec fn first_nonfull(s: Seq<SlabModel>) -> int
    decreases s.len(),
{
    if s.len() == 0 {
        -1
    } else if s[0].allocated < s[0].capacity {
        0
    } else {
        let rest = first_nonfull(s.drop_first());
        if rest < 0 {
            -1
        } else {
            rest + 1
        }
    }
}

/// Index of the first slab whose block contains `addr`, or -1 if none does.
pub open spec fn owner_index(s: Seq<SlabModel>, addr: int) -> int
    decreases s.len(),
{
    if s.len() == 0 {
        -1
    } else if s[0].contains_addr(addr) {
        0
    } else {
        let rest = owner_index(s.drop_first(), addr);
        if rest < 0 {
            -1
        } else {
            rest + 1
        }
    }
}

impl PoolModel {
    /// Well-formedness: at most [`MAX_SLABS`] slabs, each well-formed, sized
    /// for this pool's object size, and managing the block at its position
    /// in the pool's region.
    pub open spec fn wf(self) -> bool {
        &&& 0 <= self.region_base
        &&& self.region_base % (SLOT_ALIGN as int) == 0
        &&& self.region_base + (MAX_SLABS as int) * (SLAB_SIZE as int) <= usize::MAX
        &&& self.slabs.len() <= (MAX_SLABS as int)
        &&& forall|i: int| 0 <= i < self.slabs.len() ==> (#[trigger] self.slabs[i]).wf()
        &&& forall|i: int|
            0 <= i < self.slabs.len() ==> (#[trigger] self.slabs[i]).base == self.region_base
                + i * (SLAB_SIZE as int)
        &&& forall|i: int|
            0 <= i < self.slabs.len() ==> (#[trigger] self.slabs[i]).object_size
                == align_size_spec(self.object_size)
        &&& self.slabs.len() > 0 ==> 0 < self.object_size <= (MAX_OBJECT_SIZE as int)
    }

    /// Block base the next slab would be built at.
    pub open spec fn next_slab_base(self) -> int {
        self.region_base + self.slabs.len() * (SLAB_SIZE as int)
    }

    /// Whether an allocation request succeeds: some slab has room, or there
    /// is space for one more slab and the object size is one a slab can be
    /// built for.
    pub open spec fn can_alloc(self) -> bool {
        first_nonfull(self.slabs) >= 0 || (self.slabs.len() < (MAX_SLABS as int) && 0
            < self.object_size <= (MAX_OBJECT_SIZE as int))
    }

    /// The address a successful allocation returns: the head slot of the
    /// first slab with room, or the first slot of the freshly built slab.
    pub open spec fn alloc_addr(self) -> int {
        let k = first_nonfull(self.slabs);
        if k >= 0 {
            self.slabs[k].pop_addr()
        } else {
            self.next_slab_base()
        }
    }

    /// The pool after a successful allocation.
    pub open spec fn alloc_next(self) -> PoolModel {
        let k = first_nonfull(self.slabs);
        if k >= 0 {
            PoolModel { slabs: self.slabs.update(k, self.slabs[k].pop()), ..self }
        } else {
            PoolModel {
                slabs: self.slabs.push(
                    fresh_slab(self.object_size, self.next_slab_base()).pop(),
                ),
                ..self
            }
        }
    }

    /// Index of the slab that claims `addr`, or -1.
    pub open spec fn owner(self, addr: int) -> int {
        owner_index(self.slabs, addr)
    }

    /// The caller contract of `deallocate`: if some slab's block contains
    /// `addr`, then `addr` is an allocated slot of that slab. An address no
    /// slab claims is allowed and is ignored.
    pub open spec fn can_dealloc(self, addr: int) -> bool {
        self.owner(addr) >= 0 ==> self.slabs[self.owner(addr)].can_free(addr)
    }

    /// The pool after `addr` is returned: the slab that claims it takes its
    /// slot back; an unclaimed address changes nothing.
    pub open spec fn dealloc_next(self, addr: int) -> PoolModel {
        let k = self.owner(addr);
        if k >= 0 {
            PoolModel { slabs: self.slabs.update(k, self.slabs[k].push_free(addr)), ..self }
        } else {
            self
        }
    }
}

/// If the slabs before `i` are all full and slab `i` has room, then `i` is
/// the first-fit choice.
pub proof fn lemma_first_nonfull_at(s: Seq<SlabModel>, i: int)
    requires
        0 <= i < s.len(),
        forall|j: int| 0 <= j < i ==> (#[trigger] s[j]).allocated >= s[j].capacity,
        s[i].allocated < s[i].capacity,
    ensures
        first_nonfull(s) == i,
    decreases i,
{
    if i > 0 {
        let rest = s.drop_first();
        assert forall|j: int| 0 <= j < i - 1 implies (#[trigger] rest[j]).allocated
            >= rest[j].capacity by {
            assert(rest[j] == s[j + 1]);
        }
        assert(rest[i - 1] == s[i]);
        lemma_first_nonfull_at(rest, i - 1);
    }
}

/// If every slab is full there is no first-fit choice.
pub proof fn lemma_first_nonfull_none(s: Seq<SlabModel>)
    requires
        forall|j: int| 0 <= j < s.len() ==> (#[trigger] s[j]).allocated >= s[j].capacity,
    ensures
        first_nonfull(s) == -1,
    decreases s.len(),
{
    if s.len() > 0 {
        let rest = s.drop_first();
        assert forall|j: int| 0 <= j < rest.len() implies (#[trigger] rest[j]).allocated
            >= rest[j].capacity by {
            assert(rest[j] == s[j + 1]);
        }
        lemma_first_nonfull_none(rest);
    }
}

/// The first-fit choice is -1 or a valid index of a slab with room.
pub proof fn lemma_first_nonfull_props(s: Seq<SlabModel>)
    ensures
        -1 <= first_nonfull(s) < s.len(),
        first_nonfull(s) >= 0 ==> s[first_nonfull(s)].allocated
            < s[first_nonfull(s)].capacity,
    decreases s.len(),
{
    if s.len() > 0 && !(s[0].allocated < s[0].capacity) {
        lemma_first_nonfull_props(s.drop_first());
        let rest = s.drop_first();
        if first_nonfull(rest) >= 0 {
            assert(rest[first_nonfull(rest)] == s[first_nonfull(rest) + 1]);
        }
    }
}

/// If the slabs before `i` do not claim `addr` and slab `i` does, then `i`
/// is the owner.
pub proof fn lemma_owner_at(s: Seq<SlabModel>, addr: int, i: int)
    requires
        0 <= i < s.len(),
        forall|j: int| 0 <= j < i ==> !(#[trigger] s[j]).contains_addr(addr),
        s[i].contains_addr(addr),
    ensures
        owner_index(s, addr) == i,
    decreases i,
{
    if i > 0 {
        let rest = s.drop_first();
        assert forall|j: int| 0 <= j < i - 1 implies !(#[trigger] rest[j]).contains_addr(
            addr,
        ) by {
            assert(rest[j] == s[j + 1]);
        }
        assert(rest[i - 1] == s[i]);
        lemma_owner_at(rest, addr, i - 1);
    }
}

/// If no slab claims `addr` there is no owner.
pub proof fn lemma_owner_none(s: Seq<SlabModel>, addr: int)
    requires
        forall|j: int| 0 <= j < s.len() ==> !(#[trigger] s[j]).contains_addr(addr),
    ensures
        owner_index(s, addr) == -1,
    decreases s.len(),
{
    if s.len() > 0 {
        let rest = s.drop_first();
        assert forall|j: int| 0 <= j < rest.len() implies !(#[trigger] rest[j]).contains_addr(
            addr,
        ) by {
            assert(rest[j] == s[j + 1]);
        }
        lemma_owner_none(rest, addr);
    }
}

/// The owner is -1 or a valid index of a slab that claims `addr`.
pub proof fn lemma_owner_props(s: Seq<SlabModel>, addr: int)
    ensures
        -1 <= owner_index(s, addr) < s.len(),
        owner_index(s, addr) >= 0 ==> s[owner_index(s, addr)].contains_addr(addr),
    decreases s.len(),
{
    if s.len() > 0 && !s[0].contains_addr(addr) {
        lemma_owner_props(s.drop_first(), addr);
        let rest = s.drop_first();
        if owner_index(rest, addr) >= 0 {
            assert(rest[owner_index(rest, addr)] == s[owner_index(rest, addr) + 1]);
        }
    }
}

/// Every address a pool hands out is a multiple of [`SLOT_ALIGN`].
pub proof fn lemma_pool_addr_aligned(m: PoolModel)
    requires
        m.wf(),
        m.can_alloc(),
    ensures
        m.alloc_addr() % (SLOT_ALIGN as int) == 0,
{
    let k = first_nonfull(m.slabs);
    lemma_first_nonfull_props(m.slabs);
    if k >= 0 {
        lemma_alloc_addr_in_block(m.slabs[k]);
    } else {
        vstd::arithmetic::div_mod::lemma_mod_multiples_vanish(
            512 * (m.slabs.len() as int),
            m.region_base,
            SLOT_ALIGN as int,
        );
    }
}

/// An address a pool hands out is immediately releasable: in the pool that
/// results from the allocation, exactly the slab that produced it claims
/// it, and it satisfies the caller contract of `deallocate`.
pub proof fn lemma_pool_allocate_then_free(m: PoolModel)
    requires
        m.wf(),
        m.can_alloc(),
    ensures
        0 <= m.alloc_addr() <= usize::MAX,
        m.alloc_next().owner(m.alloc_addr()) == if first_nonfull(m.slabs) >= 0 {
            first_nonfull(m.slabs)
        } else {
            m.slabs.len() as int
        },
        m.alloc_next().can_dealloc(m.alloc_addr()),
{
    let k = first_nonfull(m.slabs);
    let addr = m.alloc_addr();
    let next = m.alloc_next();
    lemma_first_nonfull_props(m.slabs);
    if k >= 0 {
        let s = m.slabs[k];
        assert(s.free.len() > 0);
        lemma_alloc_addr_in_block(s);
        assert forall|j: int| 0 <= j < k implies !(#[trigger] next.slabs[j]).contains_addr(
            addr,
        ) by {
            assert(next.slabs[j] == m.slabs[j]);
            assert(m.slabs[j].base + (SLAB_SIZE as int) <= s.base);
        }
        assert(next.slabs[k] == s.pop());
        lemma_owner_at(next.slabs, addr, k);
        lemma_allocate_then_free(s);
    } else {
        let len = m.slabs.len() as int;
        let base = m.next_slab_base();
        vstd::arithmetic::div_mod::lemma_mod_multiples_vanish(
            512 * len,
            m.region_base,
            SLOT_ALIGN as int,
        );
        vstd::arithmetic::mul::lemma_mul_inequality(
            len + 1,
            MAX_SLABS as int,
            SLAB_SIZE as int,
        );
        lemma_construction_bounds(m.object_size, base);
        let f = fresh_slab(m.object_size, base);
        assert(f.free.last() == 0);
        assert(f.pop_addr() == base);
        assert forall|j: int| 0 <= j < len implies !(#[trigger] next.slabs[j]).contains_addr(
            addr,
        ) by {
            assert(next.slabs[j] == m.slabs[j]);
            assert(m.slabs[j].base + (SLAB_SIZE as int) <= base);
        }
        assert(next.slabs[len] == f.pop());
        lemma_owner_at(next.slabs, addr, len);
        lemma_allocate_then_free(f);
    }
}

/// If some slab has room, first fit finds one at least as early.
pub proof fn lemma_first_nonfull_exists(s: Seq<SlabModel>, i: int)
    requires
        0 <= i < s.len(),
        s[i].allocated < s[i].capacity,
    ensures
        0 <= first_nonfull(s) <= i,
    decreases s.len(),
{
    if !(s[0].allocated < s[0].capacity) {
        let rest = s.drop_first();
        assert(rest[i - 1] == s[i]);
        lemma_first_nonfull_exists(rest, i - 1);
    }
}

/// Returning a claimed address leaves the pool able to serve another
/// request at once: the freed slot is available again.
pub proof fn lemma_free_then_alloc(m: PoolModel, addr: int)
    requires
        m.wf(),
        m.can_dealloc(addr),
        m.owner(addr) >= 0,
    ensures
        m.dealloc_next(addr).can_alloc(),
{
    let k = m.owner(addr);
    lemma_owner_props(m.slabs, addr);
    let next = m.dealloc_next(addr);
    assert(next.slabs[k] == m.slabs[k].push_free(addr));
    lemma_can_free_means_allocated(m.slabs[k], addr);
    assert(next.slabs[k].allocated < next.slabs[k].capacity);
    lemma_first_nonfull_exists(next.slabs, k);
}

/// A bounded pool of lazily created slabs, all sharing one object size.
pub struct SlabAllocator {
    slabs: Vec<Slab>,
    object_size: usize,
    region_base: usize,
}

impl View for SlabAllocator {
    type V = PoolModel;

    closed spec fn view(&self) -> PoolModel {
        PoolModel {
            object_size: self.object_size as int,
            region_base: self.region_base as int,
            slabs: self.slabs@.map_values(|s: Slab| s@),
        }
    }
}

impl SlabAllocator {
    /// Builds an empty pool for `object_size`, placed at the default region.
    /// The object size is not validated here, as no slab is built yet; every
    /// allocation from a pool with an unusable size simply fails.
    pub fn new(object_size: usize) -> (r: SlabAllocator)
        ensures
            r@.wf(),
            r@ == (PoolModel {
                object_size: object_size as int,
                region_base: DEFAULT_POOL_BASE as int,
                slabs: Seq::<SlabModel>::empty(),
            }),
    {
        Self::new_in(object_size, DEFAULT_POOL_BASE)
    }

    /// Builds an empty pool for `object_size` whose slab blocks will carve
    /// up the region that begins at `region_base`.
    pub fn new_in(object_size: usize, region_base: usize) -> (r: SlabAllocator)
        requires
            region_base % SLOT_ALIGN == 0,
            region_base + MAX_SLABS * SLAB_SIZE <= usize::MAX,
        ensures
            r@.wf(),
            r@ == (PoolModel {
                object_size: object_size as int,
                region_base: region_base as int,
                slabs: Seq::<SlabModel>::empty(),
            }),
    {
        let r = SlabAllocator { slabs: Vec::new(), object_size, region_base };
        proof {
            assert(r@.slabs =~= Seq::<SlabModel>::empty());
            assert(r@ =~= (PoolModel {
                object_size: object_size as int,
                region_base: region_base as int,
                slabs: Seq::<SlabModel>::empty(),
            }));
        }
        r
    }

    /// First-fit allocation: serves the request from the first slab with
    /// room; only when all existing slabs are full does it build a new slab,
    /// and it fails once all [`MAX_SLABS`] slabs exist and are full (or the
    /// pool's object size is not one a slab can be built for).
    pub fn allocate(&mut self) -> (r: Option<usize>)
        requires
            old(self)@.wf(),
        ensures
            final(self)@.wf(),
            r is Some <==> old(self)@.can_alloc(),
            old(self)@.can_alloc() ==> r == Some(old(self)@.alloc_addr() as usize)
                && final(self)@ == old(self)@.alloc_next(),
            !old(self)@.can_alloc() ==> r is None && final(self)@ == old(self)@,
    {
        let ghost m = old(self)@;
        let n = self.slabs.len();
        let mut i: usize = 0;
        while i < n
            invariant
                self == old(self),
                m == self@,
                m.wf(),
                n == self.slabs@.len(),
                i <= n,
                forall|j: int|
                    0 <= j < i ==> (#[trigger] m.slabs[j]).allocated >= m.slabs[j].capacity,
            decreases n - i,
        {
            proof {
                assert(m.slabs[i as int] == self.slabs@[i as int]@);
            }
            if !self.slabs[i].is_full() {
                proof {
                    lemma_first_nonfull_at(m.slabs, i as int);
                    assert(m.slabs[i as int].free.len() > 0);
                    lemma_alloc_addr_in_block(m.slabs[i as int]);
                    assert(0 <= m.alloc_addr() <= usize::MAX);
                }
                let r = self.slabs[i].allocate();
                proof {
                    assert(self@.slabs =~= m.slabs.update(
                        i as int,
                        m.slabs[i as int].pop(),
                    ));
                    assert(self@ =~= m.alloc_next());
                }
                return r;
            }
            i = i + 1;
        }
        proof {
            lemma_first_nonfull_none(m.slabs);
        }
        if self.slabs.len() < MAX_SLABS {
            let len = self.slabs.len();
            proof {
                vstd::arithmetic::mul::lemma_mul_inequality(
                    len as int,
                    MAX_SLABS as int,
                    SLAB_SIZE as int,
                );
                vstd::arithmetic::div_mod::lemma_mod_multiples_vanish(
                    512 * (len as int),
                    m.region_base,
                    SLOT_ALIGN as int,
                );
            }
            let base = self.region_base + len * SLAB_SIZE;
            match Slab::new_at(self.object_size, base) {
                Some(mut slab) => {
                    proof {
                        assert(slab@ == fresh_slab(m.object_size, m.next_slab_base()));
                        assert(slab@.free.len() == slab@.capacity >= 1);
                        assert(slab@.free.last() == 0);
                        assert(slab@.pop_addr() == m.next_slab_base());
                        assert(m.alloc_addr() == m.next_slab_base());
                    }
                    let r = slab.allocate();
                    self.slabs.push(slab);
                    proof {
                        assert(self@.slabs =~= m.slabs.push(
                            fresh_slab(m.object_size, m.next_slab_base()).pop(),
                        ));
                        assert(self@ =~= m.alloc_next());
                    }
                    r
                },
                None => {
                    assert(!m.can_alloc());
                    None
                },
            }
        } else {
            None
        }
    }

    /// Returns `ptr` to the first slab whose block contains it; an address
    /// no slab claims is silently ignored.
    ///
    /// The caller must either pass an address this pool handed out and has
    /// not taken back since, or one that lies in none of the pool's blocks;
    /// the design relies on that contract and cannot check it.
    pub fn deallocate(&mut self, ptr: usize)
        requires
            old(self)@.wf(),
            old(self)@.can_dealloc(ptr as int),
        ensures
            final(self)@.wf(),
            final(self)@ == old(self)@.dealloc_next(ptr as int),
    {
        let ghost m = old(self)@;
        let n = self.slabs.len();
        let mut i: usize = 0;
        while i < n
            invariant
                self == old(self),
                m == self@,
                m.wf(),
                m.can_dealloc(ptr as int),
                n == self.slabs@.len(),
                i <= n,
                forall|j: int| 0 <= j < i ==> !(#[trigger] m.slabs[j]).contains_addr(ptr as int),
            decreases n - i,
        {
            proof {
                assert(m.slabs[i as int] == self.slabs@[i as int]@);
            }
            if self.slabs[i].contains(ptr) {
                proof {
                    lemma_owner_at(m.slabs, ptr as int, i as int);
                }
                self.slabs[i].deallocate(ptr);
                proof {
                    assert(self@.slabs =~= m.slabs.update(
                        i as int,
                        m.slabs[i as int].push_free(ptr as int),
                    ));
                    assert(self@ =~= m.dealloc_next(ptr as int));
                }
                return;
            }
            i = i + 1;
        }
        proof {
            lemma_owner_none(m.slabs, ptr as int);
            assert(self@ =~= m.dealloc_next(ptr as int));
        }
    }
}

} // verus!
