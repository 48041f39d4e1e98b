//! A single slab: one fixed-size block of the address space, carved into
//! equal-sized slots and handed out through a free list of slot indices.
//!
//! A free slot of the classical intrusive layout doubles as a link node, so
//! every slot is sized to hold at least [`FREE_LINK_SIZE`] bytes and aligned
//! to [`SLOT_ALIGN`]. Here the free list is kept beside the block, as a stack
//! of slot indices whose top is the head of the chain.

use vstd::prelude::*;

use crate::DEFAULT_SLAB_BASE;
use crate::FREE_LINK_SIZE;
use crate::MAX_OBJECT_SIZE;
use crate::SLAB_SIZE;
use crate::SLOT_ALIGN;

verus! {

/// The mathematical model of a [`Slab`]: plain integers and the sequence of
/// free slot indices, newest free slot last.
#[verifier::ext_equal]
pub ghost struct SlabModel {
    /// Address of the first byte of the managed block.
    pub base: int,
    /// Size of one slot in bytes (the aligned object size).
    pub object_size: int,
    /// Number of slots in the block.
    pub capacity: int,
    /// Number of slots currently handed out.
    pub allocated: int,
    /// Indices of the free slots; the last element is the head of the chain,
    /// i.e. the slot the next allocation returns.
    pub free: Seq<int>,
}

impl SlabModel {
    /// Well-formedness: sizes are in range and aligned, the capacity matches
    /// the block, and the free indices are distinct, in-bounds, and account
    /// for every slot not currently allocated.
    pub open spec fn wf(self) -> bool {
        &&& 0 <= self.base
        &&& self.base % (SLOT_ALIGN as int) == 0
        &&& self.base + (SLAB_SIZE as int) <= usize::MAX
        &&& (FREE_LINK_SIZE as int) <= self.object_size <= (MAX_OBJECT_SIZE as int)
        &&& self.object_size % (SLOT_ALIGN as int) == 0
        &&& self.capacity == (SLAB_SIZE as int) / self.object_size
        &&& 1 <= self.capacity
        &&& self.capacity * self.object_size <= (SLAB_SIZE as int)
        &&& 0 <= self.allocated
        &&& self.allocated + self.free.len() == self.capacity
        &&& forall|k: int|
            0 <= k < self.free.len() ==> 0 <= #[trigger] self.free[k] < self.capacity
        &&& self.free.no_duplicates()
    }

    /// Address of slot `k`.
    pub open spec fn slot_addr(self, k: int) -> int {
        self.base + k * self.object_size
    }

    /// Whether `addr` lies inside the managed block. This is the coarse range
    /// test `contains` answers: it does not ask that `addr` fall on a slot
    /// boundary.
    pub open spec fn contains_addr(self, addr: int) -> bool {
        self.base <= addr < self.base + (SLAB_SIZE as int)
    }

    /// Index of the slot `addr` points into.
    pub open spec fn slot_index(self, addr: int) -> int {
        (addr - self.base) / self.object_size
    }

    /// Whether `addr` may be handed to `deallocate`: it is the address of a
    /// slot of this slab that is currently allocated. This is the caller
    /// contract the intrusive design relies on but cannot check.
    pub open spec fn can_free(self, addr: int) -> bool {
        &&& self.contains_addr(addr)
        &&& (addr - self.base) % self.object_size == 0
        &&& self.slot_index(addr) < self.capacity
        &&& !self.free.contains(self.slot_index(addr))
    }

    /// The state after a successful allocation: the head of the free list is
    /// gone and one more slot is out.
    pub open spec fn pop(self) -> SlabModel {
        SlabModel { allocated: self.allocated + 1, free: self.free.drop_last(), ..self }
    }

    /// The address a successful allocation returns: the slot at the head of
    /// the free list.
    pub open spec fn pop_addr(self) -> int {
        self.slot_addr(self.free.last())
    }

    /// The state after `addr` is freed: its slot index becomes the new head
    /// of the free list and one fewer slot is out.
    pub open spec fn push_free(self, addr: int) -> SlabModel {
        SlabModel {
            allocated: self.allocated - 1,
            free: self.free.push(self.slot_index(addr)),
            ..self
        }
    }
}

/// The free list of a fresh slab: slot indices threaded so that the head is
/// slot 0 and allocation walks the block in ascending address order.
pub open spec fn fresh_free(capacity: int) -> Seq<int> {
    Seq::new(capacity as nat, |k: int| capacity - 1 - k)
}

/// The model of a freshly built slab for `object_size`, with its block at
/// `base`: no slot allocated, every slot free, head at slot 0.
pub open spec fn fresh_slab(object_size: int, base: int) -> SlabModel {
    let osize = align_size_spec(object_size);
    SlabModel {
        base: base,
        object_size: osize,
        capacity: (SLAB_SIZE as int) / osize,
        allocated: 0,
        free: fresh_free((SLAB_SIZE as int) / osize),
    }
}

/// The slot size used for a requested object size: at least the free-list
/// link size, rounded up to the slot alignment.
pub open spec fn align_size_spec(size: int) -> int {
    let padded = if size < (FREE_LINK_SIZE as int) {
        (FREE_LINK_SIZE as int)
    } else {
        size
    };
    ((padded + (SLOT_ALIGN as int) - 1) / (SLOT_ALIGN as int)) * (SLOT_ALIGN as int)
}

/// Bounds of the aligned slot size for an in-range request.
pub proof fn lemma_align_size_bounds(size: int)
    requires
        0 <= size <= (MAX_OBJECT_SIZE as int),
    ensures
        (FREE_LINK_SIZE as int) <= align_size_spec(size) <= (MAX_OBJECT_SIZE as int),
        align_size_spec(size) % (SLOT_ALIGN as int) == 0,
        size <= align_size_spec(size),
{
    let a = SLOT_ALIGN as int;
    let padded = if size < (FREE_LINK_SIZE as int) {
        (FREE_LINK_SIZE as int)
    } else {
        size
    };
    let q = (padded + a - 1) / a;
    vstd::arithmetic::div_mod::lemma_fundamental_div_mod(padded + a - 1, a);
    vstd::arithmetic::div_mod::lemma_mod_division_less_than_divisor(padded + a - 1, a);
    vstd::arithmetic::div_mod::lemma_mod_multiples_basic(q, a);
    vstd::arithmetic::div_mod::lemma_div_is_ordered(padded + a - 1, 519, a);
}

/// One fixed-size block of the address space, partitioned into equal-sized
/// slots that are handed out and reclaimed through a free list.
pub struct Slab {
    base: usize,
    object_size: usize,
    capacity: usize,
    allocated: usize,
    free_list: Vec<usize>,
}

impl View for Slab {
    type V = SlabModel;

    closed spec fn view(&self) -> SlabModel {
        SlabModel {
            base: self.base as int,
            object_size: self.object_size as int,
            capacity: self.capacity as int,
            allocated: self.allocated as int,
            free: self.free_list@.map_values(|v: usize| v as int),
        }
    }
}

impl Slab {
    /// Builds a slab for `object_size` with its block at the default base.
    /// Succeeds exactly for object sizes in `1..=512`.
    pub fn new(object_size: usize) -> (r: Option<Slab>)
        ensures
            r is Some <==> 0 < object_size <= MAX_OBJECT_SIZE,
            r matches Some(s) ==> s@ == fresh_slab(
                object_size as int,
                DEFAULT_SLAB_BASE as int,
            ),
            r matches Some(s) ==> s@.wf(),
    {
        Self::new_at(object_size, DEFAULT_SLAB_BASE)
    }

    /// Builds a slab for `object_size` managing the block that begins at
    /// `base`. Succeeds exactly for object sizes in `1..=512`.
    pub fn new_at(object_size: usize, base: usize) -> (r: Option<Slab>)
        requires
            base % SLOT_ALIGN == 0,
            base + SLAB_SIZE <= usize::MAX,
        ensures
            r is Some <==> 0 < object_size <= MAX_OBJECT_SIZE,
            r matches Some(s) ==> s@ == fresh_slab(object_size as int, base as int),
            r matches Some(s) ==> s@.wf(),
    {
        if object_size == 0 || object_size > MAX_OBJECT_SIZE {
            return None;
        }
        let aligned_size = Self::align_size(object_size);
        proof {
            lemma_align_size_bounds(object_size as int);
            lemma_construction_bounds(object_size as int, base as int);
        }
        let capacity = SLAB_SIZE / aligned_size;
        if capacity == 0 {
            return None;
        }
        let mut slab = Slab {
            base,
            object_size: aligned_size,
            capacity,
            allocated: 0,
            free_list: Vec::new(),
        };
        slab.init_free_list();
        proof {
            assert(slab@ =~= fresh_slab(object_size as int, base as int));
        }
        Some(slab)
    }

    /// The slot size used for a requested object size: at least the
    /// free-list link size, rounded up to the slot alignment.
    fn align_size(size: usize) -> (r: usize)
        requires
            size <= MAX_OBJECT_SIZE,
        ensures
            r as int == align_size_spec(size as int),
    {
        let padded = if size < FREE_LINK_SIZE {
            FREE_LINK_SIZE
        } else {
            size
        };
        ((padded + (SLOT_ALIGN - 1)) / SLOT_ALIGN) * SLOT_ALIGN
    }

    /// Threads the free list of a fresh slab, visiting slot indices from the
    /// last down to 0, so that the head ends at slot 0 and a first pass of
    /// allocations walks the block in ascending address order.
    fn init_free_list(&mut self)
        requires
            old(self).free_list@.len() == 0,
            old(self).capacity <= SLAB_SIZE,
        ensures
            final(self).base == old(self).base,
            final(self).object_size == old(self).object_size,
            final(self).capacity == old(self).capacity,
            final(self).allocated == old(self).allocated,
            final(self)@.free == fresh_free(old(self).capacity as int),
    {
        let cap = self.capacity;
        let mut i: usize = cap;
        while i > 0
            invariant
                i <= cap,
                self.base == old(self).base,
                self.object_size == old(self).object_size,
                self.capacity == old(self).capacity,
                self.allocated == old(self).allocated,
                cap == self.capacity,
                self.free_list@.len() == cap - i,
                forall|k: int|
                    0 <= k < cap - i ==> #[trigger] self.free_list@[k] as int == cap as int - 1
                        - k,
            decreases i,
        {
            i = i - 1;
            self.free_list.push(i);
        }
        proof {
            assert(self.free_list@.map_values(|v: usize| v as int) =~= fresh_free(
                cap as int,
            ));
        }
    }

    /// Pops the head of the free list and returns that slot's address.
    /// Fails exactly when every slot is out.
    pub fn allocate(&mut self) -> (r: Option<usize>)
        requires
            old(self)@.wf(),
        ensures
            final(self)@.wf(),
            r is Some <==> old(self)@.allocated < old(self)@.capacity,
            old(self)@.free.len() > 0 ==> r == Some(old(self)@.pop_addr() as usize)
                && final(self)@ == old(self)@.pop(),
            old(self)@.free.len() == 0 ==> r is None && final(self)@ == old(self)@,
    {
        if self.free_list.len() == 0 {
            return None;
        }
        let ghost m = old(self)@;
        let idx = self.free_list.pop().unwrap();
        self.allocated = self.allocated + 1;
        proof {
            assert(m.free[m.free.len() - 1] == idx as int);
            assert(0 <= (idx as int) < m.capacity);
            lemma_slot_in_block(m, idx as int);
            assert(self@.free =~= m.free.drop_last());
            assert(self@ =~= m.pop());
        }
        Some(self.base + idx * self.object_size)
    }

    /// Pushes the slot holding `ptr` back onto the head of the free list,
    /// so that it is the next slot handed out (last freed, first reused).
    ///
    /// The caller must pass an address this slab returned from `allocate`
    /// and has not freed since; the intrusive design relies on that contract
    /// and cannot check it.
    pub fn deallocate(&mut self, ptr: usize)
        requires
            old(self)@.wf(),
            old(self)@.can_free(ptr as int),
        ensures
            final(self)@.wf(),
            final(self)@ == old(self)@.push_free(ptr as int),
    {
        proof {
            lemma_can_free_means_allocated(old(self)@, ptr as int);
            vstd::arithmetic::div_mod::lemma_div_pos_is_pos(
                ptr as int - old(self)@.base,
                old(self)@.object_size,
            );
        }
        let idx = (ptr - self.base) / self.object_size;
        let ghost m = old(self)@;
        proof {
            assert(idx as int == m.slot_index(ptr as int));
            assert(forall|k: int|
                0 <= k < m.free.len() ==> #[trigger] m.free[k] != idx as int);
        }
        self.free_list.push(idx);
        self.allocated = self.allocated - 1;
        proof {
            assert(self@.free =~= m.free.push(idx as int));
            assert(self@ =~= m.push_free(ptr as int));
        }
    }

    /// Whether every slot is currently handed out.
    pub fn is_full(&self) -> (r: bool)
        ensures
            r == (self@.allocated == self@.capacity),
    {
        self.allocated == self.capacity
    }

    /// Whether no slot is currently handed out.
    pub fn is_empty(&self) -> (r: bool)
        ensures
            r == (self@.allocated == 0),
    {
        self.allocated == 0
    }

    /// The slot size in use: the requested object size, aligned.
    pub fn object_size(&self) -> (r: usize)
        ensures
            r as int == self@.object_size,
    {
        self.object_size
    }

    /// The number of slots in this slab's block.
    pub fn capacity(&self) -> (r: usize)
        ensures
            r as int == self@.capacity,
    {
        self.capacity
    }

    /// The number of slots currently handed out.
    pub fn allocated(&self) -> (r: usize)
        ensures
            r as int == self@.allocated,
    {
        self.allocated
    }

    /// Whether `ptr` lies inside this slab's block. A coarse range test: an
    /// address in the middle of an allocated object also answers true.
    pub fn contains(&self, ptr: usize) -> (r: bool)
        requires
            self@.wf(),
        ensures
            r == self@.contains_addr(ptr as int),
    {
        ptr >= self.base && ptr < self.base + SLAB_SIZE
    }
}

/// The address of any in-bounds slot lies inside the block, is aligned to
/// [`SLOT_ALIGN`], and leaves room for the whole slot.
pub proof fn lemma_slot_in_block(m: SlabModel, k: int)
    requires
        m.wf(),
        0 <= k < m.capacity,
    ensures
        m.base <= m.slot_addr(k),
        m.slot_addr(k) + m.object_size <= m.base + (SLAB_SIZE as int),
        m.contains_addr(m.slot_addr(k)),
        m.slot_addr(k) % (SLOT_ALIGN as int) == 0,
{
    let a = SLOT_ALIGN as int;
    vstd::arithmetic::mul::lemma_mul_nonnegative(k, m.object_size);
    vstd::arithmetic::mul::lemma_mul_inequality(k + 1, m.capacity, m.object_size);
    vstd::arithmetic::mul::lemma_mul_is_distributive_add_other_way(
        m.object_size,
        k,
        1,
    );
    vstd::arithmetic::div_mod::lemma_mul_mod_noop_right(k, m.object_size, a);
    vstd::arithmetic::mul::lemma_mul_basics(k);
    vstd::arithmetic::div_mod::lemma_add_mod_noop(m.base, k * m.object_size, a);
}

/// Construction succeeds for every object size in `1..=512`: the fresh slab
/// is well-formed, has at least one slot, and its slots fit in the block,
/// `capacity * object_size <= 4096`.
pub proof fn lemma_construction_bounds(object_size: int, base: int)
    requires
        0 < object_size <= (MAX_OBJECT_SIZE as int),
        0 <= base,
        base % (SLOT_ALIGN as int) == 0,
        base + (SLAB_SIZE as int) <= usize::MAX,
    ensures
        fresh_slab(object_size, base).wf(),
        1 <= fresh_slab(object_size, base).capacity,
        fresh_slab(object_size, base).capacity * fresh_slab(object_size, base).object_size
            <= (SLAB_SIZE as int),
{
    lemma_align_size_bounds(object_size);
    let osize = align_size_spec(object_size);
    let c = (SLAB_SIZE as int) / osize;
    vstd::arithmetic::div_mod::lemma_div_is_ordered_by_denominator(
        SLAB_SIZE as int,
        osize,
        MAX_OBJECT_SIZE as int,
    );
    assert(c >= (SLAB_SIZE as int) / (MAX_OBJECT_SIZE as int));
    vstd::arithmetic::div_mod::lemma_fundamental_div_mod(SLAB_SIZE as int, osize);
    vstd::arithmetic::div_mod::lemma_mod_division_less_than_divisor(
        SLAB_SIZE as int,
        osize,
    );
    assert(osize * c <= (SLAB_SIZE as int));
    vstd::arithmetic::mul::lemma_mul_is_commutative(c, osize);
    assert(fresh_slab(object_size, base).free =~= fresh_free(c));
    assert(fresh_free(c).len() == c);
}

/// Distinct slots of a well-formed slab never overlap: their addresses
/// differ, and the lower one lies at least a whole slot below the higher.
pub proof fn lemma_slot_addrs_distinct(m: SlabModel, i: int, j: int)
    requires
        m.wf(),
        0 <= i < m.capacity,
        0 <= j < m.capacity,
        i != j,
    ensures
        m.slot_addr(i) != m.slot_addr(j),
        i < j ==> m.slot_addr(i) + m.object_size <= m.slot_addr(j),
    decreases (if i < j { 0int } else { 1int }),
{
    if i < j {
        vstd::arithmetic::mul::lemma_mul_inequality(i + 1, j, m.object_size);
        vstd::arithmetic::mul::lemma_mul_is_distributive_add_other_way(
            m.object_size,
            i,
            1,
        );
    } else {
        lemma_slot_addrs_distinct(m, j, i);
    }
}

/// Successive allocations from a slab return distinct addresses: what the
/// next allocation would return differs from what this one returns by at
/// least a whole slot.
pub proof fn lemma_successive_allocations_distinct(m: SlabModel)
    requires
        m.wf(),
        m.free.len() >= 2,
    ensures
        m.pop().free.len() > 0,
        m.pop().pop_addr() != m.pop_addr(),
{
    let i = m.free[m.free.len() - 2];
    let j = m.free[m.free.len() - 1];
    assert(m.pop().free.last() == i);
    assert(i != j);
    lemma_slot_addrs_distinct(m, i, j);
}

/// Freeing a slot and allocating again returns the exact same address and
/// restores the state the slab had before the free (last in, first out).
pub proof fn lemma_lifo_reuse(m: SlabModel, addr: int)
    requires
        m.wf(),
        m.can_free(addr),
    ensures
        m.push_free(addr).free.len() > 0,
        m.push_free(addr).pop_addr() == addr,
        m.push_free(addr).pop() == m,
{
    let idx = m.slot_index(addr);
    vstd::arithmetic::div_mod::lemma_fundamental_div_mod(addr - m.base, m.object_size);
    assert(m.push_free(addr).pop_addr() == m.base + idx * m.object_size);
    assert(m.push_free(addr).pop().free =~= m.free);
    assert(m.push_free(addr).pop() =~= m);
}

/// Every address a slab hands out lies inside its block and is a multiple
/// of [`SLOT_ALIGN`].
pub proof fn lemma_alloc_addr_in_block(m: SlabModel)
    requires
        m.wf(),
        m.free.len() > 0,
    ensures
        m.contains_addr(m.pop_addr()),
        m.pop_addr() % (SLOT_ALIGN as int) == 0,
{
    assert(m.free[m.free.len() - 1] == m.free.last());
    lemma_slot_in_block(m, m.free.last());
}

/// An address a slab hands out is immediately releasable: right after the
/// allocation it satisfies the caller contract of `deallocate`.
pub proof fn lemma_allocate_then_free(m: SlabModel)
    requires
        m.wf(),
        m.free.len() > 0,
    ensures
        m.pop().can_free(m.pop_addr()),
{
    let idx = m.free.last();
    assert(m.free[m.free.len() - 1] == idx);
    lemma_slot_in_block(m, idx);
    vstd::arithmetic::div_mod::lemma_mod_multiples_basic(idx, m.object_size);
    vstd::arithmetic::mul::lemma_mul_is_commutative(idx, m.object_size);
    vstd::arithmetic::div_mod::lemma_div_multiples_vanish(idx, m.object_size);
    assert(m.pop().slot_index(m.pop_addr()) == idx);
    assert(!m.pop().free.contains(idx)) by {
        if m.pop().free.contains(idx) {
            let k = choose|k: int|
                0 <= k < m.pop().free.len() && m.pop().free[k] == idx;
            assert(m.free[k] == idx);
        }
    }
}

/// An address that may be freed belongs to a slot that is out, so at least
/// one slot is allocated and the free list is not yet full.
pub proof fn lemma_can_free_means_allocated(m: SlabModel, addr: int)
    requires
        m.wf(),
        m.can_free(addr),
    ensures
        m.free.len() < m.capacity,
        1 <= m.allocated,
{
    vstd::arithmetic::div_mod::lemma_div_pos_is_pos(addr - m.base, m.object_size);
    let idx = m.slot_index(addr);
    let s = m.free.push(idx);
    assert(s.no_duplicates());
    s.unique_seq_to_set();
    let range = vstd::set_lib::set_int_range(0, m.capacity);
    vstd::set_lib::lemma_int_range(0, m.capacity);
    assert forall|x: int| s.to_set().contains(x) implies range.contains(x) by {
        let k = choose|k: int| 0 <= k < s.len() && s[k] == x;
        assert(s[k] == x);
    }
    vstd::set_lib::lemma_len_subset(s.to_set(), range);
}

} // verus!
