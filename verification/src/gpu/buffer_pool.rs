//! Suballocation of the cache's buffers out of a few large mapped blocks.
//!
//! Only memory is pooled: each buffer is created at exactly the size the cache asked
//! for and bound at an offset inside a block.  A freed buffer hands its region back to
//! the free list of its size class.
//!
//! The caller owns the device.  It creates the buffer, asks the pool for a region with
//! `take_free` and `reserve`, allocates a block where `reserve` finds none with room,
//! and binds the buffer at the region it got.  A region is recycled only once no
//! submitted work reads its buffer any more.

use std::collections::HashMap;
use vstd::arithmetic::power2::lemma2_to64;
use vstd::arithmetic::power2::lemma_pow2_unfold;
use vstd::arithmetic::power2::pow2;
use vstd::prelude::*;

use crate::arith::{align_up, checked_align_up, is_power_of_two, lemma_align_up};

verus! {

broadcast use vstd::std_specs::hash::group_hash_axioms;

/// Block size carved per device allocation.
pub const BLOCK_BYTES: u64 = 0x100_0000;

/// Smallest size class.
pub const MIN_CLASS: u64 = 256;

/// One device allocation, handed out by bumping `used`.
#[derive(Clone, Copy, Debug, PartialEq, Eq, Structural)]
pub struct Block {
    pub size: u64,
    pub used: u64,
    pub memory_type: u32,
}

/// `class` bytes at `offset` of block number `block`.
#[derive(Clone, Copy, Debug, PartialEq, Eq, Structural)]
pub struct Region {
    pub block: usize,
    pub offset: u64,
    pub class: u64,
}

/// A cache buffer: its device handle and the region that backs it.
#[derive(Clone, Copy, Debug, PartialEq, Eq, Structural)]
pub struct PooledBuffer {
    pub buffer: u64,
    pub region: Region,
}

/// The display thread's region allocator.
pub struct CacheBufferPool {
    blocks: Vec<Block>,
    free: HashMap<u64, Vec<Region>>,
    live: Ghost<Set<Region>>,
}

/// What the pool answers to a request for a region.
#[derive(Clone, Copy, Debug, PartialEq, Eq, Structural)]
pub enum PoolAlloc {
    /// A recycled region of the right class.
    Recycled(Region),
    /// A region just carved out of a block.
    Fresh(Region),
    /// No block has room: allocate one of `bytes` bytes, note it, and ask again.
    NeedBlock { class: u64, bytes: u64 },
}

/// Two regions share no byte.
pub open spec fn disjoint(a: Region, b: Region) -> bool {
    a.block != b.block || a.offset + a.class <= b.offset || b.offset + b.class <= a.offset
}

/// A region of a recycled class may back a buffer with this alignment and these
/// acceptable memory types.
pub open spec fn region_fits(blocks: Seq<Block>, r: Region, align: u64, type_bits: u32) -> bool {
    &&& r.offset % align == 0
    &&& type_bits & (1u32 << blocks[r.block as int].memory_type) != 0
}

/// A block has room for `class` bytes at an aligned offset.
pub open spec fn block_fits(b: Block, class: u64, align: u64, memory_type: u32) -> bool {
    &&& b.memory_type == memory_type
    &&& align_up(b.used as int, align as int) + class <= b.size
}

/// The size class of a `size`-byte requirement: the next power of two, or the exact
/// size for what is larger than a whole block.
pub open spec fn is_size_class(size: u64, class: u64) -> bool {
    let want = if size < MIN_CLASS {
        MIN_CLASS
    } else {
        size
    };
    if want <= BLOCK_BYTES {
        &&& is_power_of_two(class as int)
        &&& want <= class <= BLOCK_BYTES
        &&& class == MIN_CLASS || class < 2 * want
    } else {
        class == want
    }
}

pub fn size_class(size: u64) -> (class: u64)
    ensures
        is_size_class(size, class),
{
    let want: u64 = if size < MIN_CLASS {
        MIN_CLASS
    } else {
        size
    };
    if want > BLOCK_BYTES {
        return want;
    }
    let mut pot: u64 = MIN_CLASS;
    let ghost mut e: nat = 8;
    proof {
        lemma2_to64();
    }
    while pot < want
        invariant
            want <= BLOCK_BYTES,
            MIN_CLASS <= pot,
            pot == pow2(e),
            e <= 24,
            pow2(24) == BLOCK_BYTES,
            pot == MIN_CLASS || pot < 2 * want,
        decreases 2 * want - pot,
    {
        proof {
            lemma_pow2_unfold(e + 1);
            if e >= 24 {
                vstd::arithmetic::power2::lemma_pow2_strictly_increases(e, 25);
            }
            e = e + 1;
        }
        pot = pot * 2;
    }
    proof {
        assert(is_power_of_two(pot as int));
        if e > 24 {
            vstd::arithmetic::power2::lemma_pow2_strictly_increases(24, e);
        } else if e < 24 {
            vstd::arithmetic::power2::lemma_pow2_strictly_increases(e, 24);
        }
    }
    pot
}

/// The position of the last region that fits, if one does.
pub open spec fn last_fit(
    blocks: Seq<Block>,
    regions: Seq<Region>,
    align: u64,
    type_bits: u32,
) -> Option<int>
    decreases regions.len(),
{
    if regions.len() == 0 {
        None
    } else if region_fits(blocks, regions.last(), align, type_bits) {
        Some(regions.len() - 1)
    } else {
        last_fit(blocks, regions.drop_last(), align, type_bits)
    }
}

/// `last_fit` points at a region that fits.
proof fn lemma_last_fit(blocks: Seq<Block>, regions: Seq<Region>, align: u64, type_bits: u32)
    ensures
        last_fit(blocks, regions, align, type_bits) matches Some(i) ==> 0 <= i < regions.len()
            && region_fits(blocks, regions[i], align, type_bits),
    decreases regions.len(),
{
    if regions.len() > 0 && !region_fits(blocks, regions.last(), align, type_bits) {
        lemma_last_fit(blocks, regions.drop_last(), align, type_bits);
    }
}

/// The position of the first block that fits, if one does.
pub open spec fn first_block(
    blocks: Seq<Block>,
    class: u64,
    align: u64,
    memory_type: u32,
    from: int,
) -> Option<int>
    decreases blocks.len() - from,
{
    if from < 0 || from >= blocks.len() {
        None
    } else if block_fits(blocks[from], class, align, memory_type) {
        Some(from)
    } else {
        first_block(blocks, class, align, memory_type, from + 1)
    }
}

impl CacheBufferPool {
    /// The device blocks, in the order they were allocated.
    pub closed spec fn blocks(&self) -> Seq<Block> {
        self.blocks@
    }

    /// The recycled regions of one class, the most recently recycled last.
    pub closed spec fn free(&self, class: u64) -> Seq<Region> {
        if self.free@.contains_key(class) {
            self.free@[class]@
        } else {
            Seq::empty()
        }
    }

    /// The regions that back a buffer right now.
    pub closed spec fn live(&self) -> Set<Region> {
        self.live@
    }

    /// A region has been carved out of a block.
    pub open spec fn carved(&self, r: Region) -> bool {
        &&& r.block < self.blocks().len()
        &&& r.offset + r.class <= self.blocks()[r.block as int].used
    }

    pub open spec fn wf(&self) -> bool {
        &&& forall|i: int|
            0 <= i < self.blocks().len() ==> (#[trigger] self.blocks()[i]).used
                <= self.blocks()[i].size && self.blocks()[i].memory_type < 32
        &&& forall|c: u64, i: int|
            0 <= i < self.free(c).len() ==> self.carved(#[trigger] self.free(c)[i])
                && self.free(c)[i].class == c && !self.live().contains(self.free(c)[i])
        &&& forall|c: u64, i: int, d: u64, j: int|
            0 <= i < self.free(c).len() && 0 <= j < self.free(d).len() && (c != d || i != j)
                ==> disjoint(#[trigger] self.free(c)[i], #[trigger] self.free(d)[j])
        &&& forall|r: Region| #[trigger] self.live().contains(r) ==> self.carved(r)
        &&& forall|r: Region, c: u64, i: int|
            #![trigger self.live().contains(r), self.free(c)[i]]
            self.live().contains(r) && 0 <= i < self.free(c).len() ==> disjoint(
                r,
                self.free(c)[i],
            )
        &&& forall|r: Region, s: Region| #[trigger]
            self.live().contains(r) && #[trigger] self.live().contains(s) && r != s ==> disjoint(
                r,
                s,
            )
    }

    /// Adding blocks, or nothing at all, keeps a pool well formed.
    proof fn lemma_grown(before: &Self, after: &Self)
        requires
            before.wf(),
            forall|c: u64| #[trigger] after.free(c) == before.free(c),
            after.live() == before.live(),
            before.blocks().len() <= after.blocks().len(),
            forall|i: int|
                0 <= i < before.blocks().len() ==> #[trigger] after.blocks()[i]
                    == before.blocks()[i],
            forall|i: int|
                before.blocks().len() <= i < after.blocks().len() ==> (
                #[trigger] after.blocks()[i]).used <= after.blocks()[i].size
                    && after.blocks()[i].memory_type < 32,
        ensures
            after.wf(),
    {
        assert forall|i: int| 0 <= i < after.blocks().len() implies (
        #[trigger] after.blocks()[i]).used <= after.blocks()[i].size
            && after.blocks()[i].memory_type < 32 by {
            if i < before.blocks().len() {
                assert(before.blocks()[i].used <= before.blocks()[i].size);
            }
        }
        assert forall|r: Region| before.carved(r) implies #[trigger] after.carved(r) by {
            assert(after.blocks()[r.block as int] == before.blocks()[r.block as int]);
        }
        assert forall|c: u64, i: int| 0 <= i < after.free(c).len() implies after.carved(
            #[trigger] after.free(c)[i],
        ) && after.free(c)[i].class == c && !after.live().contains(after.free(c)[i]) by {
            assert(before.carved(before.free(c)[i]));
        }
        assert forall|c: u64, i: int, d: u64, j: int|
            0 <= i < after.free(c).len() && 0 <= j < after.free(d).len() && (c != d || i
                != j) implies disjoint(#[trigger] after.free(c)[i], #[trigger] after.free(d)[j]) by {
            assert(disjoint(before.free(c)[i], before.free(d)[j]));
        }
        assert forall|r: Region| #[trigger] after.live().contains(r) implies after.carved(r) by {
            assert(before.live().contains(r));
        }
        assert forall|r: Region, c: u64, i: int|
            #![trigger after.live().contains(r), after.free(c)[i]]
            after.live().contains(r) && 0 <= i < after.free(c).len() implies disjoint(
            r,
            after.free(c)[i],
        ) by {
            assert(before.live().contains(r));
            assert(disjoint(r, before.free(c)[i]));
        }
    }

    pub fn new() -> (pool: Self)
        ensures
            pool.wf(),
            pool.blocks() == Seq::<Block>::empty(),
            pool.live() == Set::<Region>::empty(),
            forall|c: u64| pool.free(c) == Seq::<Region>::empty(),
    {
        CacheBufferPool { blocks: Vec::new(), free: HashMap::new(), live: Ghost(Set::empty()) }
    }

    /// Pop the most recently recycled region of `class` that fits: its offset is a
    /// multiple of `align` and its block's memory type is one of `type_bits`.  The last
    /// region of the class takes the place of the one handed out.
    pub fn take_free(&mut self, class: u64, align: u64, type_bits: u32) -> (r: Option<Region>)
        requires
            old(self).wf(),
            align > 0,
            class > 0,
        ensures
            final(self).wf(),
            final(self).blocks() == old(self).blocks(),
            forall|c: u64| c != class ==> final(self).free(c) == old(self).free(c),
            match last_fit(old(self).blocks(), old(self).free(class), align, type_bits) {
                Some(i) => {
                    let free = old(self).free(class);
                    &&& r == Some(free[i])
                    &&& final(self).free(class) == free.update(i, free.last()).drop_last()
                    &&& final(self).live() == old(self).live().insert(free[i])
                },
                None => {
                    &&& r is None
                    &&& final(self).free(class) == old(self).free(class)
                    &&& final(self).live() == old(self).live()
                },
            },
    {
        let mut regions = match self.free.remove(&class) {
            Some(v) => v,
            None => {
                assert(self.free@ == old(self).free@);
                assert(forall|c: u64| #[trigger] self.free(c) == old(self).free(c));
                proof {
                    Self::lemma_grown(old(self), self);
                }
                return None;
            },
        };
        let ghost before = regions@;
        assert(before == old(self).free(class));
        let mut n: usize = regions.len();
        assert(before.take(n as int) == before);
        while n > 0
            invariant
                n <= regions.len(),
                regions@ == before,
                self.blocks@ == old(self).blocks(),
                align > 0,
                forall|i: int| 0 <= i < before.len() ==> (#[trigger] before[i]).block < self.blocks@.len(),
                forall|i: int| 0 <= i < self.blocks@.len() ==> (#[trigger] self.blocks@[i]).memory_type < 32,
                last_fit(self.blocks@, before, align, type_bits) == last_fit(
                    self.blocks@,
                    before.take(n as int),
                    align,
                    type_bits,
                ),
            ensures
                n == 0 ==> last_fit(self.blocks@, before, align, type_bits) is None,
                n > 0 ==> last_fit(self.blocks@, before, align, type_bits) == Some(n - 1),
            decreases n,
        {
            let r = regions[n - 1];
            let kind: u32 = self.blocks[r.block].memory_type;
            let ghost part = before.take(n as int);
            assert(part.last() == r);
            assert(part.drop_last() == before.take(n - 1));
            if r.offset % align == 0 && (type_bits & (1u32 << kind)) != 0 {
                break;
            }
            n = n - 1;
        }
        if n == 0 {
            self.free.insert(class, regions);
            assert(self.free(class) == old(self).free(class));
            assert(forall|c: u64| #[trigger] self.free(c) == old(self).free(c));
            proof {
                Self::lemma_grown(old(self), self);
            }
            return None;
        }
        let picked = regions[n - 1];
        regions.swap_remove(n - 1);
        self.free.insert(class, regions);
        self.live = Ghost(self.live@.insert(picked));
        proof {
            let i = n - 1;
            let after = before.update(i, before.last()).drop_last();
            assert(regions@ == after);
            assert(self.free(class) == after);
            assert forall|c: u64, k: int|
                #![trigger self.free(c)[k]]
                0 <= k < self.free(c).len() implies exists|j: int|
                0 <= j < old(self).free(c).len() && #[trigger] old(self).free(c)[j] == self.free(c)[k]
                    && (c == class ==> j == (if k == i {
                    before.len() - 1
                } else {
                    k
                })) && (c != class ==> j == k) by {
                if c == class {
                    let j = if k == i {
                        before.len() - 1
                    } else {
                        k
                    };
                    assert(old(self).free(c)[j] == self.free(c)[k]);
                } else {
                    assert(old(self).free(c)[k] == self.free(c)[k]);
                }
            }
            assert(old(self).free(class)[i] == picked);
        }
        Some(picked)
    }

    /// Carve a fresh region out of the first block of `memory_type` with room for it,
    /// or say that no block has.
    pub fn reserve(&mut self, class: u64, align: u64, memory_type: u32) -> (r: Option<Region>)
        requires
            old(self).wf(),
            align > 0,
            class > 0,
        ensures
            final(self).wf(),
            forall|c: u64| final(self).free(c) == old(self).free(c),
            match first_block(old(self).blocks(), class, align, memory_type, 0) {
                Some(i) => {
                    let b = old(self).blocks()[i];
                    let offset = align_up(b.used as int, align as int);
                    &&& r is Some
                    &&& r->0.block == i
                    &&& r->0.offset == offset
                    &&& r->0.class == class
                    &&& final(self).blocks() == old(self).blocks().update(
                        i,
                        (Block { used: (offset + class) as u64, ..b }),
                    )
                    &&& final(self).live() == old(self).live().insert(r->0)
                    &&& !old(self).live().contains(r->0)
                },
                None => r is None && *final(self) == *old(self),
            },
    {
        let mut i: usize = 0;
        while i < self.blocks.len()
            invariant
                *self == *old(self),
                self.wf(),
                i <= self.blocks@.len(),
                align > 0,
                class > 0,
                first_block(self.blocks@, class, align, memory_type, 0) == first_block(
                    self.blocks@,
                    class,
                    align,
                    memory_type,
                    i as int,
                ),
            decreases self.blocks@.len() - i,
        {
            let b = self.blocks[i];
            proof {
                lemma_align_up(b.used as int, align as int);
            }
            if b.memory_type == memory_type {
                if let Some(offset) = checked_align_up(b.used, align) {
                    if offset <= b.size && class <= b.size - offset {
                        let r = Region { block: i, offset, class };
                        assert(self.blocks()[i as int] == b);
                        self.blocks.set(
                            i,
                            Block { size: b.size, used: offset + class, memory_type },
                        );
                        self.live = Ghost(self.live@.insert(r));
                        proof {
                            assert(block_fits(old(self).blocks()[i as int], class, align, memory_type));
                            assert(!old(self).live().contains(r)) by {
                                if old(self).live().contains(r) {
                                    assert(old(self).carved(r));
                                }
                            }
                            assert(forall|c: u64| self.free(c) == old(self).free(c));
                            assert forall|s: Region| old(self).carved(s) implies #[trigger] disjoint(r, s)
                                && self.carved(s) by {}
                            assert(self.carved(r));
                        }
                        return Some(r);
                    }
                }
            }
            i = i + 1;
        }
        None
    }

    /// Find a region for a buffer with these memory requirements.  `memory_type` is the
    /// host-visible type the device would pick among `type_bits`.
    pub fn alloc_region(&mut self, size: u64, alignment: u64, type_bits: u32, memory_type: u32) -> (r:
        PoolAlloc)
        requires
            old(self).wf(),
        ensures
            final(self).wf(),
            ({
                let align = if alignment == 0 {
                    1u64
                } else {
                    alignment
                };
                match r {
                    PoolAlloc::Recycled(region) => {
                        &&& is_size_class(size, region.class)
                        &&& region_fits(old(self).blocks(), region, align, type_bits)
                        &&& last_fit(
                            old(self).blocks(),
                            old(self).free(region.class),
                            align,
                            type_bits,
                        ) matches Some(i) && region == old(self).free(region.class)[i]
                            && final(self).free(region.class) == old(self).free(
                            region.class,
                        ).update(i, old(self).free(region.class).last()).drop_last()
                        &&& forall|c: u64|
                            c != region.class ==> final(self).free(c) == old(self).free(c)
                        &&& final(self).blocks() == old(self).blocks()
                        &&& final(self).live() == old(self).live().insert(region)
                        &&& !old(self).live().contains(region)
                    },
                    PoolAlloc::Fresh(region) => {
                        &&& is_size_class(size, region.class)
                        &&& last_fit(
                            old(self).blocks(),
                            old(self).free(region.class),
                            align,
                            type_bits,
                        ) is None
                        &&& first_block(
                            old(self).blocks(),
                            region.class,
                            align,
                            memory_type,
                            0,
                        ) == Some(region.block as int)
                        &&& region.offset == align_up(
                            old(self).blocks()[region.block as int].used as int,
                            align as int,
                        )
                        &&& final(self).blocks() == old(self).blocks().update(
                            region.block as int,
                            (Block {
                                used: (region.offset + region.class) as u64,
                                ..old(self).blocks()[region.block as int]
                            }),
                        )
                        &&& forall|c: u64| final(self).free(c) == old(self).free(c)
                        &&& final(self).live() == old(self).live().insert(region)
                        &&& !old(self).live().contains(region)
                    },
                    PoolAlloc::NeedBlock { class, bytes } => {
                        &&& is_size_class(size, class)
                        &&& last_fit(old(self).blocks(), old(self).free(class), align, type_bits)
                            is None
                        &&& first_block(old(self).blocks(), class, align, memory_type, 0) is None
                        &&& bytes == (if class > BLOCK_BYTES {
                            class
                        } else {
                            BLOCK_BYTES
                        })
                        &&& final(self).blocks() == old(self).blocks()
                        &&& final(self).live() == old(self).live()
                        &&& forall|c: u64| final(self).free(c) == old(self).free(c)
                    },
                }
            }),
    {
        let align: u64 = if alignment == 0 {
            1
        } else {
            alignment
        };
        let class: u64 = size_class(size);
        let taken = self.take_free(class, align, type_bits);
        if let Some(region) = taken {
            proof {
                lemma_last_fit(old(self).blocks(), old(self).free(class), align, type_bits);
            }
            return PoolAlloc::Recycled(region);
        }
        assert(forall|c: u64| #[trigger] self.free(c) == old(self).free(c));
        match self.reserve(class, align, memory_type) {
            Some(region) => PoolAlloc::Fresh(region),
            None => PoolAlloc::NeedBlock { class, bytes: Self::block_size(class) },
        }
    }

    /// The size of the block a region of `class` needs where no block has room.
    pub fn block_size(class: u64) -> (size: u64)
        ensures
            size == (if class > BLOCK_BYTES {
                class
            } else {
                BLOCK_BYTES
            }),
    {
        if class > BLOCK_BYTES {
            class
        } else {
            BLOCK_BYTES
        }
    }

    /// Note a block the device has just allocated.
    pub fn add_block(&mut self, size: u64, memory_type: u32)
        requires
            old(self).wf(),
            memory_type < 32,
            old(self).blocks().len() < usize::MAX,
        ensures
            final(self).wf(),
            final(self).blocks() == old(self).blocks().push(
                (Block { size, used: 0, memory_type }),
            ),
            forall|c: u64| final(self).free(c) == old(self).free(c),
            final(self).live() == old(self).live(),
    {
        self.blocks.push(Block { size, used: 0, memory_type });
        proof {
            assert(forall|c: u64| #[trigger] self.free(c) == old(self).free(c));
            Self::lemma_grown(old(self), self);
        }
    }

    /// Give a region back to the free list of its class.  Its buffer is destroyed and
    /// nothing submitted reads it any more.
    pub fn recycle(&mut self, buf: PooledBuffer)
        requires
            old(self).wf(),
            old(self).live().contains(buf.region),
        ensures
            final(self).wf(),
            final(self).blocks() == old(self).blocks(),
            final(self).live() == old(self).live().remove(buf.region),
            forall|c: u64|
                final(self).free(c) == (if c == buf.region.class {
                    old(self).free(c).push(buf.region)
                } else {
                    old(self).free(c)
                }),
    {
        let region = buf.region;
        let mut regions = match self.free.remove(&region.class) {
            Some(v) => v,
            None => Vec::new(),
        };
        assert(regions@ == old(self).free(region.class));
        regions.push(region);
        self.free.insert(region.class, regions);
        self.live = Ghost(self.live@.remove(region));
        assert forall|c: u64| self.free(c) == (if c == region.class {
            old(self).free(c).push(region)
        } else {
            old(self).free(c)
        }) by {}
    }
}

/// Two buffers that are in use share no byte, and each lies within the part of its block
/// that has been handed out.
pub proof fn law_live_regions_do_not_overlap(pool: CacheBufferPool, a: Region, b: Region)
    requires
        pool.wf(),
        pool.live().contains(a),
        pool.live().contains(b),
        a != b,
    ensures
        disjoint(a, b),
        pool.carved(a),
        pool.carved(b),
{
}

/// A recycled region waits for its next buffer alone: it is neither in use nor does it
/// share a byte with one that is.
pub proof fn law_free_regions_are_not_in_use(pool: CacheBufferPool, class: u64, i: int, r: Region)
    requires
        pool.wf(),
        0 <= i < pool.free(class).len(),
        pool.live().contains(r),
    ensures
        !pool.live().contains(pool.free(class)[i]),
        disjoint(r, pool.free(class)[i]),
{
}

/// A size has one class, and the class holds it: a small one wastes less than half of it,
/// and one that is larger than a block wastes nothing.
pub proof fn law_size_has_one_class(size: u64, a: u64, b: u64)
    requires
        is_size_class(size, a),
        is_size_class(size, b),
    ensures
        a == b,
        size <= a,
        MIN_CLASS < size <= BLOCK_BYTES ==> a < 2 * size,
        size > BLOCK_BYTES ==> a == size,
{
    let want = if size < MIN_CLASS {
        MIN_CLASS
    } else {
        size
    };
    if want <= BLOCK_BYTES && a != b {
        let m = choose|m: nat| a as int == pow2(m);
        let n = choose|n: nat| b as int == pow2(n);
        if m < n {
            lemma_pow2_unfold(m + 1);
            if m + 1 < n {
                vstd::arithmetic::power2::lemma_pow2_strictly_increases(m + 1, n);
            }
        } else if n < m {
            lemma_pow2_unfold(n + 1);
            if n + 1 < m {
                vstd::arithmetic::power2::lemma_pow2_strictly_increases(n + 1, m);
            }
        }
    }
}

/// The classes: 256 bytes for what is no larger; a power of two, the smallest that holds it, up
/// to 16 MiB; and beyond that the exact size.
pub proof fn law_classes(size: u64, class: u64)
    requires
        is_size_class(size, class),
    ensures
        size <= 256 ==> class == 256,
        256 < size <= 0x100_0000 ==> is_power_of_two(class as int) && size <= class < 2 * size,
        size > 0x100_0000 ==> class == size,
{
    if size <= 256 {
        lemma2_to64();
        assert(pow2(8) == 256);
        assert(is_power_of_two(256));
        assert(is_size_class(size, 256));
        law_size_has_one_class(size, class, 256);
    }
}

/// The region that is recycled is the one that was given back last among those that fit: it
/// starts at a multiple of the alignment, in a block whose memory type is allowed; and every
/// later one does not.
pub proof fn law_latest_fit_is_recycled(
    blocks: Seq<Block>,
    regions: Seq<Region>,
    align: u64,
    type_bits: u32,
    j: int,
)
    requires
        align > 0,
    ensures
        match last_fit(blocks, regions, align, type_bits) {
            Some(i) => {
                &&& 0 <= i < regions.len()
                &&& regions[i].offset % align == 0
                &&& type_bits & (1u32 << blocks[regions[i].block as int].memory_type) != 0
                &&& i < j < regions.len() ==> regions[j].offset % align != 0 || type_bits & (1u32
                    << blocks[regions[j].block as int].memory_type) == 0
            },
            None => 0 <= j < regions.len() ==> regions[j].offset % align != 0 || type_bits & (1u32
                << blocks[regions[j].block as int].memory_type) == 0,
        },
    decreases regions.len(),
{
    if regions.len() > 0 && !region_fits(blocks, regions.last(), align, type_bits) {
        law_latest_fit_is_recycled(blocks, regions.drop_last(), align, type_bits, j);
    }
}

/// A fresh region is carved out of the first block that has the memory type and room behind what
/// is handed out, from a multiple of the alignment on.
pub proof fn law_first_block_with_room(
    blocks: Seq<Block>,
    class: u64,
    align: u64,
    memory_type: u32,
    from: int,
    j: int,
)
    requires
        align > 0,
        0 <= from <= j < blocks.len(),
    ensures
        match first_block(blocks, class, align, memory_type, from) {
            Some(i) => {
                &&& from <= i < blocks.len()
                &&& blocks[i].memory_type == memory_type
                &&& align_up(blocks[i].used as int, align as int) + class <= blocks[i].size
                &&& j < i ==> blocks[j].memory_type != memory_type || align_up(
                    blocks[j].used as int,
                    align as int,
                ) + class > blocks[j].size
            },
            None => blocks[j].memory_type != memory_type || align_up(
                blocks[j].used as int,
                align as int,
            ) + class > blocks[j].size,
        },
    decreases blocks.len() - from,
{
    if !block_fits(blocks[from], class, align, memory_type) {
        if from + 1 <= j {
            law_first_block_with_room(blocks, class, align, memory_type, from + 1, j);
        } else if from + 1 < blocks.len() {
            law_first_block_with_room(
                blocks,
                class,
                align,
                memory_type,
                from + 1,
                from + 1,
            );
        }
    }
}

/// Two regions that are in use share no byte of a block.
pub proof fn law_regions_share_no_byte(pool: CacheBufferPool, a: Region, b: Region, x: int)
    requires
        pool.wf(),
        pool.live().contains(a),
        pool.live().contains(b),
        a != b,
        a.block == b.block,
    ensures
        !(a.offset <= x < a.offset + a.class && b.offset <= x < b.offset + b.class),
        a.block < pool.blocks().len(),
        a.offset + a.class <= pool.blocks()[a.block as int].size,
{
    assert(disjoint(a, b));
    assert(pool.carved(a));
}

} // verus!
