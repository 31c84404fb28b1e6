use vstd::prelude::*;

verus! {

/// Bytes in the pool that backs the engine's internal allocations.
pub const MEMORY_POOL_SIZE: usize = 67108864;

/// A bump allocator over one mapped region. Allocations are offsets into
/// the region; the region itself is mapped and unmapped by the caller.
pub struct MemoryPool {
    pub size: usize,
    pub used: usize,
    pub initialized: bool,
}

/// `offset` rounded up with the mask of `alignment`, as the pool computes it.
pub open spec fn align_up(offset: usize, alignment: usize) -> usize
    recommends
        alignment >= 1,
        offset + alignment <= usize::MAX,
{
    ((offset + alignment - 1) as usize) & !((alignment - 1) as usize)
}

/// `a` is a power of two.
pub open spec fn is_power_of_two(a: usize) -> bool {
    a > 0 && a & ((a - 1) as usize) == 0
}

impl MemoryPool {
    /// The pool holds no more than it has, and an unmapped pool holds nothing.
    pub open spec fn wf(&self) -> bool {
        &&& self.used <= self.size
        &&& !self.initialized ==> self.size == 0 && self.used == 0
    }

    /// A pool with no region behind it.
    pub fn new() -> (r: Self)
        ensures
            r.wf(),
            !r.initialized,
            r.size == 0,
            r.used == 0,
    {
        MemoryPool { size: 0, used: 0, initialized: false }
    }
}

/// Installs a freshly mapped region of `MEMORY_POOL_SIZE` bytes, where
/// `mapping_ok` tells whether the mapping succeeded. A pool that is already
/// set up stays as it is and counts as success.
pub fn init_memory_pool(pool: &mut MemoryPool, mapping_ok: bool) -> (r: bool)
    requires
        old(pool).wf(),
    ensures
        final(pool).wf(),
        old(pool).initialized ==> r && *final(pool) == *old(pool),
        !old(pool).initialized && !mapping_ok ==> !r && *final(pool) == *old(pool),
        !old(pool).initialized && mapping_ok ==> r && final(pool).initialized && final(pool).size
            == MEMORY_POOL_SIZE && final(pool).used == 0,
{
    if pool.initialized {
        return true;
    }
    if !mapping_ok {
        return false;
    }
    *pool = MemoryPool { size: MEMORY_POOL_SIZE, used: 0, initialized: true };
    true
}

/// Takes `size` bytes at the next offset that the mask of `alignment` gives,
/// or `None` when the pool is not set up or too full.
pub fn allocate_from_pool(pool: &mut MemoryPool, size: usize, alignment: usize) -> (r: Option<
    usize,
>)
    requires
        old(pool).wf(),
        alignment >= 1,
        old(pool).initialized ==> old(pool).used + alignment <= usize::MAX && align_up(
            old(pool).used,
            alignment,
        ) + size <= usize::MAX,
    ensures
        final(pool).wf(),
        final(pool).size == old(pool).size,
        final(pool).initialized == old(pool).initialized,
        !old(pool).initialized ==> r is None && *final(pool) == *old(pool),
        old(pool).initialized ==> {
            let at = align_up(old(pool).used, alignment);
            if at + size > old(pool).size {
                r is None && *final(pool) == *old(pool)
            } else {
                r == Some(at) && final(pool).used == at + size
            }
        },
        is_power_of_two(alignment) && r is Some ==> {
            let at = r->0;
            &&& old(pool).used <= at
            &&& at % alignment == 0
            &&& at + size == final(pool).used <= final(pool).size
        },
{
    if !pool.initialized {
        return None;
    }
    let current_offset = pool.used;
    let aligned_offset = (current_offset + alignment - 1) & !(alignment - 1);
    proof {
        if is_power_of_two(alignment) {
            lemma_align_up(current_offset, alignment);
        }
    }
    let new_used = aligned_offset + size;
    if new_used > pool.size {
        return None;
    }
    pool.used = new_used;
    Some(aligned_offset)
}

/// Forgets every allocation; the region stays mapped.
pub fn reset_pool(pool: &mut MemoryPool)
    requires
        old(pool).wf(),
    ensures
        final(pool).wf(),
        final(pool).used == 0,
        final(pool).size == old(pool).size,
        final(pool).initialized == old(pool).initialized,
{
    pool.used = 0;
}

/// Marks the region as unmapped; `true` when the caller must unmap it.
pub fn cleanup_memory_pool(pool: &mut MemoryPool) -> (r: bool)
    requires
        old(pool).wf(),
    ensures
        final(pool).wf(),
        r == old(pool).initialized,
        !final(pool).initialized,
{
    if pool.initialized {
        *pool = MemoryPool { size: 0, used: 0, initialized: false };
        true
    } else {
        false
    }
}

/// With a power-of-two alignment the rounded offset is the least multiple
/// of the alignment at or above `offset`.
#[verifier::rlimit(100)]
pub proof fn lemma_align_up(offset: usize, alignment: usize)
    requires
        is_power_of_two(alignment),
        offset + alignment <= usize::MAX,
    ensures
        align_up(offset, alignment) % alignment == 0,
        offset <= align_up(offset, alignment) < offset + alignment,
{
    let y = (offset + alignment - 1) as usize;
    let m = (alignment - 1) as usize;
    let r = y & !m;
    assert(r <= y && y - r <= m && r & m == 0) by (bit_vector)
        requires
            y == (offset + alignment - 1) as usize,
            m == (alignment - 1) as usize,
            r == y & !m,
    ;
    assert(alignment & m == 0 && alignment > 0 && r & m == 0 ==> r % alignment == 0) by (bit_vector)
        requires
            m == (alignment - 1) as usize,
    ;
}

} // verus!
