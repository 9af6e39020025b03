//! Index allocators.
//!
//! [`StackedAllocator`] hands out single indices from a fixed range with a
//! watermark and a LIFO stack of freed indices; it backs the physical frame
//! allocator and the swap-slot allocator.  [`BitmapVectorAllocator`] hands out
//! aligned runs of indices tracked by a bitmap; it backs the kernel heap.

use vstd::prelude::*;

verus! {

/// An allocator of single indices with a fixed capacity.
///
/// The contracts state conservation: an index is handed out only while not
/// already out, and the number of outstanding indices moves by exactly one per
/// call.
pub trait Allocator: Sized {
    /// Internal consistency.
    spec fn inv(&self) -> bool;

    /// How many indices the allocator governs.
    spec fn capacity_spec(&self) -> int;

    /// Whether `index` is currently handed out.
    spec fn allocated(&self, index: usize) -> bool;

    /// How many indices are handed out right now.
    spec fn outstanding(&self) -> int;

    /// Create an allocator over `0..capacity`.
    fn new(capacity: usize) -> (r: Self)
        ensures
            r.inv(),
            r.capacity_spec() == capacity,
            r.outstanding() == 0,
            forall|i: usize| !r.allocated(i),
    ;

    /// Hand out an index, or `None` exactly when every index is taken.
    fn allocate(&mut self) -> (r: Option<usize>)
        requires
            old(self).inv(),
        ensures
            final(self).inv(),
            final(self).capacity_spec() == old(self).capacity_spec(),
            r is None <==> old(self).outstanding() == old(self).capacity_spec(),
            r is None ==> final(self).outstanding() == old(self).outstanding()
                && (forall|j: usize| final(self).allocated(j) <==> old(self).allocated(j)),
            r matches Some(i) ==> {
                &&& i < old(self).capacity_spec()
                &&& !old(self).allocated(i)
                &&& final(self).allocated(i)
                &&& forall|j: usize|
                        j != i ==> (final(self).allocated(j) <==> old(self).allocated(j))
                &&& final(self).outstanding() == old(self).outstanding() + 1
            },
    ;

    /// Take back an index handed out before.
    fn dealloc(&mut self, index: usize)
        requires
            old(self).inv(),
            old(self).allocated(index),
        ensures
            final(self).inv(),
            final(self).capacity_spec() == old(self).capacity_spec(),
            !final(self).allocated(index),
            forall|j: usize| j != index ==> (final(self).allocated(j) <==> old(self).allocated(j)),
            final(self).outstanding() == old(self).outstanding() - 1,
    ;
}

/// A stacked index allocator: a watermark of the highest index never handed
/// out yet, plus a LIFO stack of freed indices.  Allocation pops the stack
/// first and bumps the watermark otherwise.
pub struct StackedAllocator {
    /// Indices are handed out from `0..capacity`.
    pub capacity: usize,
    /// Indices in `watermark..capacity` have never been handed out.
    pub watermark: usize,
    /// Freed indices, each below the watermark, none repeated.
    pub recycled: Vec<usize>,
}

impl Allocator for StackedAllocator {
    open spec fn inv(&self) -> bool {
        &&& self.watermark <= self.capacity
        &&& forall|k: int| 0 <= k < self.recycled@.len() ==> self.recycled@[k] < self.watermark
        &&& forall|k1: int, k2: int|
                0 <= k1 < k2 < self.recycled@.len() ==> self.recycled@[k1] != self.recycled@[k2]
    }

    open spec fn capacity_spec(&self) -> int {
        self.capacity as int
    }

    open spec fn allocated(&self, index: usize) -> bool {
        index < self.watermark && !self.recycled@.contains(index)
    }

    open spec fn outstanding(&self) -> int {
        self.watermark - self.recycled@.len()
    }

    fn new(capacity: usize) -> Self {
        StackedAllocator { capacity, watermark: 0, recycled: Vec::new() }
    }

    fn allocate(&mut self) -> Option<usize> {
        if let Some(i) = self.recycled.pop() {
            proof {
                assert(old(self).recycled@ == self.recycled@.push(i));
                assert forall|j: usize| j != i implies
                    (self.allocated(j) <==> old(self).allocated(j)) by {
                    if self.recycled@.contains(j) {
                        let k = choose|k: int|
                            0 <= k < self.recycled@.len() && self.recycled@[k] == j;
                        assert(old(self).recycled@[k] == j);
                    }
                    if old(self).recycled@.contains(j) {
                        let k = choose|k: int|
                            0 <= k < old(self).recycled@.len() && old(self).recycled@[k] == j;
                        assert(k < self.recycled@.len());
                    }
                }
                assert(!self.recycled@.contains(i)) by {
                    if self.recycled@.contains(i) {
                        let k = choose|k: int|
                            0 <= k < self.recycled@.len() && self.recycled@[k] == i;
                        assert(old(self).recycled@[k]
                            == old(self).recycled@[old(self).recycled@.len() - 1]);
                    }
                }
            }
            Some(i)
        } else if self.watermark < self.capacity {
            let i = self.watermark;
            self.watermark = self.watermark + 1;
            Some(i)
        } else {
            None
        }
    }

    fn dealloc(&mut self, index: usize) {
        self.recycled.push(index);
        proof {
            assert(self.recycled@ == old(self).recycled@.push(index));
            assert(self.recycled@.contains(index)) by {
                assert(self.recycled@[self.recycled@.len() - 1] == index);
            }
            assert forall|j: usize| j != index implies
                (self.allocated(j) <==> old(self).allocated(j)) by {
                if self.recycled@.contains(j) {
                    let k = choose|k: int|
                        0 <= k < self.recycled@.len() && self.recycled@[k] == j;
                    assert(k < old(self).recycled@.len() && old(self).recycled@[k] == j);
                }
                if old(self).recycled@.contains(j) {
                    let k = choose|k: int|
                        0 <= k < old(self).recycled@.len() && old(self).recycled@[k] == j;
                    assert(self.recycled@[k] == j);
                }
            }
        }
    }
}

/// An allocator of aligned runs of indices with a fixed capacity.
pub trait VectorAllocator: Sized {
    /// Internal consistency.
    spec fn inv(&self) -> bool;

    /// How many indices the allocator governs.
    spec fn capacity_spec(&self) -> int;

    /// Whether index `i` is currently part of a handed-out run.
    spec fn taken(&self, i: int) -> bool;

    /// Create an allocator over `0..capacity`.
    fn new(capacity: usize) -> (r: Self)
        ensures
            r.inv(),
            r.capacity_spec() <= capacity,
            forall|i: int| !r.taken(i),
    ;

    /// Hand out `size` contiguous indices starting at a multiple of `align`;
    /// `None` only when every aligned start below `capacity - size` overlaps
    /// a taken index.
    fn allocate(&mut self, size: usize, align: usize) -> (r: Option<usize>)
        requires
            old(self).inv(),
            1 <= align,
            1 <= size,
            size <= old(self).capacity_spec(),
        ensures
            final(self).inv(),
            final(self).capacity_spec() == old(self).capacity_spec(),
            r matches Some(s) ==> {
                &&& s % align == 0
                &&& s + size <= old(self).capacity_spec()
                &&& forall|i: int| s <= i < s + size ==> !old(self).taken(i)
                &&& forall|i: int| s <= i < s + size ==> final(self).taken(i)
                &&& forall|i: int|
                        !(s <= i < s + size) ==> (final(self).taken(i) <==> old(self).taken(i))
            },
            r is None ==> {
                &&& (forall|i: int| final(self).taken(i) <==> old(self).taken(i))
                &&& forall|s: int|
                        0 <= s < old(self).capacity_spec() - size
                            && #[trigger] (s % (align as int)) == 0
                            ==> exists|i: int| s <= i < s + size && old(self).taken(i)
            },
    ;

    /// Take back a run handed out before.
    fn dealloc(&mut self, start: usize, size: usize, align: usize)
        requires
            old(self).inv(),
            old(self).taken(start as int),
            start + size <= old(self).capacity_spec(),
        ensures
            final(self).inv(),
            final(self).capacity_spec() == old(self).capacity_spec(),
            forall|i: int| start <= i < start + size ==> !final(self).taken(i),
            forall|i: int|
                !(start <= i < start + size) ==> (final(self).taken(i) <==> old(self).taken(i)),
    ;
}

/// Bits in the heap bitmap.
pub const BITMAP_SIZE: usize = 4096;

/// Whether bit `i` of the byte sequence `bm` is set.
pub open spec fn spec_bit(bm: Seq<u8>, i: int) -> bool {
    (bm[i / 8] >> ((i % 8) as u8)) & 1 == 1
}

/// An aligned-run allocator tracking one bit per index; bit set means taken.
pub struct BitmapVectorAllocator {
    /// Indices are handed out from `0..capacity`.
    pub capacity: usize,
    /// One bit per index of `0..capacity`.
    pub bitmap: Vec<u8>,
}

impl BitmapVectorAllocator {
    /// Read bit `i`.
    fn get_bit(&self, i: usize) -> (r: bool)
        requires
            self.inv(),
            i < BITMAP_SIZE,
        ensures
            r == spec_bit(self.bitmap@, i as int),
    {
        (self.bitmap[i / 8] >> ((i % 8) as u8)) & 1 == 1
    }

    /// Write bit `i`, leaving every other bit as it was.
    fn set_bit(&mut self, i: usize, value: bool)
        requires
            old(self).inv(),
            i < BITMAP_SIZE,
        ensures
            final(self).inv(),
            final(self).capacity == old(self).capacity,
            spec_bit(final(self).bitmap@, i as int) == value,
            forall|j: int|
                0 <= j < BITMAP_SIZE && j != i
                    ==> spec_bit(final(self).bitmap@, j) == spec_bit(old(self).bitmap@, j),
    {
        let byte = self.bitmap[i / 8];
        let mask: u8 = 1u8 << ((i % 8) as u8);
        let updated: u8 = if value { byte | mask } else { byte & !mask };
        self.bitmap.set(i / 8, updated);
        proof {
            let a = (i % 8) as u8;
            lemma_byte_bit_update(byte, a, value);
            assert forall|j: int|
                0 <= j < BITMAP_SIZE && j != i
                    implies spec_bit(self.bitmap@, j) == spec_bit(old(self).bitmap@, j) by {
                if j / 8 == i / 8 {
                    assert(j % 8 != i % 8) by {
                        assert(j == 8 * (j / 8) + j % 8);
                        assert(i == 8 * (i as int / 8) + i as int % 8);
                    }
                }
            }
        }
    }
}

/// Setting or clearing one bit of a byte changes that bit alone.
proof fn lemma_byte_bit_update(x: u8, a: u8, value: bool)
    requires
        a < 8,
    ensures
        value ==> (x | (1u8 << a)) >> a & 1 == 1,
        !value ==> (x & !(1u8 << a)) >> a & 1 == 0,
        forall|b: u8| b < 8 && b != a ==> (x | (1u8 << a)) >> b & 1 == x >> b & 1,
        forall|b: u8| b < 8 && b != a ==> (x & !(1u8 << a)) >> b & 1 == x >> b & 1,
{
    assert((x | (1u8 << a)) >> a & 1 == 1) by (bit_vector)
        requires
            a < 8,
    ;
    assert((x & !(1u8 << a)) >> a & 1 == 0) by (bit_vector)
        requires
            a < 8,
    ;
    assert(forall|b: u8| b < 8 && b != a ==> (x | (1u8 << a)) >> b & 1 == x >> b & 1)
        by (bit_vector)
        requires
            a < 8,
    ;
    assert(forall|b: u8| b < 8 && b != a ==> (x & !(1u8 << a)) >> b & 1 == x >> b & 1)
        by (bit_vector)
        requires
            a < 8,
    ;
}

impl VectorAllocator for BitmapVectorAllocator {
    open spec fn inv(&self) -> bool {
        &&& self.bitmap@.len() == BITMAP_SIZE / 8
        &&& self.capacity <= BITMAP_SIZE
    }

    open spec fn capacity_spec(&self) -> int {
        self.capacity as int
    }

    open spec fn taken(&self, i: int) -> bool {
        0 <= i < self.capacity && spec_bit(self.bitmap@, i)
    }

    fn new(capacity: usize) -> Self {
        let capped = if capacity < BITMAP_SIZE { capacity } else { BITMAP_SIZE };
        let mut bitmap: Vec<u8> = Vec::new();
        while bitmap.len() < BITMAP_SIZE / 8
            invariant
                bitmap@.len() <= BITMAP_SIZE / 8,
                forall|k: int| 0 <= k < bitmap@.len() ==> bitmap@[k] == 0u8,
            decreases BITMAP_SIZE / 8 - bitmap@.len(),
        {
            bitmap.push(0u8);
        }
        let r = BitmapVectorAllocator { capacity: capped, bitmap };
        proof {
            assert forall|i: int| !r.taken(i) by {
                if 0 <= i < r.capacity {
                    assert(r.bitmap@[i / 8] == 0u8);
                    let b = (i % 8) as u8;
                    assert(0u8 >> b & 1 == 0) by (bit_vector);
                }
            }
        }
        r
    }

    fn allocate(&mut self, size: usize, align: usize) -> Option<usize> {
        let mut start: usize = 0;
        while start < self.capacity - size
            invariant
                self.inv(),
                *self == *old(self),
                1 <= align,
                1 <= size,
                size <= self.capacity,
                start % align == 0,
                start <= self.capacity,
                forall|s: int|
                    0 <= s < start && #[trigger] (s % (align as int)) == 0
                        ==> exists|i: int| s <= i < s + size && self.taken(i),
            decreases self.capacity - start,
        {
            let mut k: usize = start;
            let mut clear = true;
            while k < start + size
                invariant
                    self.inv(),
                    1 <= size,
                    start + size <= self.capacity,
                    start <= k <= start + size,
                    clear ==> forall|i: int| start <= i < k ==> !self.taken(i),
                    !clear ==> exists|i: int| start <= i < start + size && self.taken(i),
                ensures
                    clear ==> forall|i: int| start <= i < start + size ==> !self.taken(i),
                    !clear ==> exists|i: int| start <= i < start + size && self.taken(i),
                decreases start + size - k,
            {
                if self.get_bit(k) {
                    assert(self.taken(k as int));
                    clear = false;
                    break;
                }
                assert(!self.taken(k as int));
                k = k + 1;
            }
            if clear {
                assert(forall|i: int| start <= i < start + size ==> !self.taken(i));
                let ghost pre = *self;
                let mut m: usize = start;
                while m < start + size
                    invariant
                        self.inv(),
                        self.capacity == pre.capacity,
                        start <= m <= start + size,
                        start + size <= self.capacity,
                        forall|i: int| start <= i < m ==> #[trigger] self.taken(i),
                        forall|i: int| !(start <= i < m) ==> (self.taken(i) <==> pre.taken(i)),
                    decreases start + size - m,
                {
                    let ghost before = *self;
                    self.set_bit(m, true);
                    proof {
                        assert(self.taken(m as int));
                        assert forall|i: int| start <= i < m + 1 implies #[trigger] self.taken(i) by {
                            if i < m {
                                assert(before.taken(i));
                                assert(spec_bit(self.bitmap@, i) == spec_bit(before.bitmap@, i));
                            }
                        }
                        assert forall|i: int| !(start <= i < m + 1) implies
                            (self.taken(i) <==> pre.taken(i)) by {
                            if 0 <= i < BITMAP_SIZE {
                                assert(spec_bit(self.bitmap@, i) == spec_bit(before.bitmap@, i));
                            }
                        }
                    }
                    m = m + 1;
                }
                return Some(start);
            }
            // A stride past the capacity leaves no further aligned start
            // to probe: every later multiple of `align` lies beyond the
            // probed range.
            if align > self.capacity - start {
                proof {
                    assert forall|s2: int|
                        0 <= s2 < self.capacity - size
                            && #[trigger] (s2 % (align as int)) == 0
                            implies exists|i: int|
                                s2 <= i < s2 + size && self.taken(i) by {
                        if s2 >= start {
                            assert(s2 == start) by (nonlinear_arith)
                                requires
                                    (start as int) % (align as int) == 0,
                                    s2 % (align as int) == 0,
                                    start <= s2,
                                    s2 < start + align,
                                    align >= 1,
                            ;
                        }
                    }
                }
                return None;
            }
            proof {
                vstd::arithmetic::div_mod::lemma_mod_multiples_vanish(
                    1, start as int, align as int);
                assert((align + start) % (align as int) == (start as int) % (align as int));
                assert forall|s2: int|
                    0 <= s2 < start + align && #[trigger] (s2 % (align as int)) == 0
                        implies exists|i: int| s2 <= i < s2 + size && self.taken(i) by {
                    if s2 >= start {
                        assert(s2 == start) by (nonlinear_arith)
                            requires
                                (start as int) % (align as int) == 0,
                                s2 % (align as int) == 0,
                                start <= s2 < start + align,
                                align >= 1,
                        ;
                    }
                }
            }
            start = start + align;
        }
        None
    }

    fn dealloc(&mut self, start: usize, size: usize, _align: usize) {
        let ghost pre = *self;
        let mut m: usize = start;
        while m < start + size
            invariant
                self.inv(),
                self.capacity == pre.capacity,
                start <= m <= start + size,
                start + size <= self.capacity,
                forall|i: int| start <= i < m ==> !#[trigger] self.taken(i),
                forall|i: int| !(start <= i < m) ==> (self.taken(i) <==> pre.taken(i)),
            decreases start + size - m,
        {
            let ghost before = *self;
            self.set_bit(m, false);
            proof {
                assert(!self.taken(m as int));
                assert forall|i: int| start <= i < m implies !#[trigger] self.taken(i) by {
                    assert(!before.taken(i));
                    assert(spec_bit(self.bitmap@, i) == spec_bit(before.bitmap@, i));
                }
                assert forall|i: int| !(start <= i < m + 1) implies
                    (self.taken(i) <==> pre.taken(i)) by {
                    if 0 <= i < BITMAP_SIZE {
                        assert(spec_bit(self.bitmap@, i) == spec_bit(before.bitmap@, i));
                    }
                }
            }
            m = m + 1;
        }
    }
}

/// The allocator the kernel uses for single indices.
pub type AllocatorImpl = StackedAllocator;

/// The allocator the kernel uses for the heap.
pub type VectorAllocatorImpl = BitmapVectorAllocator;

} // verus!
