//! Physical frames and the frame allocator.
//!
//! A [`FrameTracker`] is the exclusively owned handle to one physical page;
//! in this model it carries the page's 4096 bytes.  The allocator hands
//! frames out of a contiguous region and takes them back by page number.
//!
//! Conservation is stated on the contracts: `allocate` returns a page that no
//! live holder has, `dealloc` requires one that a holder has, and each call
//! moves the outstanding count by exactly one.

use vstd::prelude::*;
use crate::KernelError;
use crate::addr::{PhysicalPageNumber, PPN_LIMIT};
use crate::allocator::{Allocator, AllocatorImpl};
use crate::config::PAGE_SIZE;

verus! {

/// A fresh page is zero-filled.
pub open spec fn zero_page_seq() -> Seq<u8> {
    Seq::new(PAGE_SIZE as nat, |i: int| 0u8)
}

/// Build one zero-filled page.
pub fn zero_page() -> (r: Vec<u8>)
    ensures
        r@ == zero_page_seq(),
        r@.len() == PAGE_SIZE,
{
    let mut page: Vec<u8> = Vec::new();
    while page.len() < PAGE_SIZE
        invariant
            page@.len() <= PAGE_SIZE,
            forall|k: int| 0 <= k < page@.len() ==> page@[k] == 0u8,
        decreases PAGE_SIZE - page@.len(),
    {
        page.push(0u8);
    }
    proof {
        assert(page@ =~= zero_page_seq());
    }
    page
}

/// The exclusively owned handle to one physical page, carrying its contents.
pub struct FrameTracker {
    /// The page's number.
    pub ppn: u64,
    /// The page's 4096 bytes.
    pub data: Vec<u8>,
}

impl FrameTracker {
    /// A frame always holds exactly one page of bytes.
    pub open spec fn wf(&self) -> bool {
        self.data@.len() == PAGE_SIZE
    }

    /// The physical page this frame stands for.
    pub fn page_number(&self) -> (r: PhysicalPageNumber)
        ensures
            r.0 == self.ppn,
    {
        PhysicalPageNumber(self.ppn)
    }
}

/// Hands out 4 KiB frames from the contiguous region
/// `base_ppn..base_ppn + capacity`.
pub struct FrameAllocator {
    /// First page of the governed region.
    pub base_ppn: u64,
    /// Which offsets inside the region are handed out.
    pub allocator: AllocatorImpl,
}

impl FrameAllocator {
    /// Internal consistency.
    pub open spec fn inv(&self) -> bool {
        &&& self.allocator.inv()
        &&& self.base_ppn + self.allocator.capacity_spec() <= PPN_LIMIT
    }

    /// Whether the page `ppn` is handed out to some holder.
    pub open spec fn allocated_ppn(&self, ppn: u64) -> bool {
        &&& self.base_ppn <= ppn < self.base_ppn + self.allocator.capacity_spec()
        &&& self.allocator.allocated((ppn - self.base_ppn) as usize)
    }

    /// How many frames are handed out right now.
    pub open spec fn outstanding(&self) -> int {
        self.allocator.outstanding()
    }

    /// How many frames the region holds.
    pub open spec fn capacity_spec(&self) -> int {
        self.allocator.capacity_spec()
    }

    /// Create an allocator over `capacity` pages starting at `base_ppn`.
    pub fn new(base_ppn: u64, capacity: usize) -> (r: FrameAllocator)
        requires
            base_ppn + capacity <= PPN_LIMIT,
        ensures
            r.inv(),
            r.base_ppn == base_ppn,
            r.capacity_spec() == capacity,
            r.outstanding() == 0,
            forall|p: u64| !r.allocated_ppn(p),
    {
        FrameAllocator { base_ppn, allocator: AllocatorImpl::new(capacity) }
    }

    /// Hand out a frame nobody holds, zero-filled; fails exactly when every
    /// frame of the region is out.
    pub fn allocate(&mut self) -> (r: Result<FrameTracker, KernelError>)
        requires
            old(self).inv(),
        ensures
            final(self).inv(),
            final(self).base_ppn == old(self).base_ppn,
            final(self).capacity_spec() == old(self).capacity_spec(),
            r matches Err(e) ==> e == KernelError::OutOfFrames,
            r is Err <==> old(self).outstanding() == old(self).capacity_spec(),
            r is Err ==> final(self).outstanding() == old(self).outstanding()
                && (forall|p: u64| final(self).allocated_ppn(p) <==> old(self).allocated_ppn(p)),
            r matches Ok(f) ==> {
                &&& f.wf()
                &&& f.data@ == zero_page_seq()
                &&& !old(self).allocated_ppn(f.ppn)
                &&& final(self).allocated_ppn(f.ppn)
                &&& forall|p: u64|
                        p != f.ppn
                            ==> (final(self).allocated_ppn(p) <==> old(self).allocated_ppn(p))
                &&& final(self).outstanding() == old(self).outstanding() + 1
            },
    {
        match self.allocator.allocate() {
            Some(index) => {
                let ppn = self.base_ppn + index as u64;
                proof {
                    assert forall|p: u64| p != ppn implies
                        (self.allocated_ppn(p) <==> old(self).allocated_ppn(p)) by {
                        if self.base_ppn <= p < self.base_ppn + self.allocator.capacity_spec() {
                            assert((p - self.base_ppn) as usize != index);
                        }
                    }
                }
                Ok(FrameTracker { ppn, data: zero_page() })
            }
            None => Err(KernelError::OutOfFrames),
        }
    }

    /// Take back the page `ppn`, which must be out with some holder.
    pub fn dealloc(&mut self, ppn: u64)
        requires
            old(self).inv(),
            old(self).allocated_ppn(ppn),
        ensures
            final(self).inv(),
            final(self).base_ppn == old(self).base_ppn,
            final(self).capacity_spec() == old(self).capacity_spec(),
            !final(self).allocated_ppn(ppn),
            forall|p: u64| p != ppn ==> (final(self).allocated_ppn(p) <==> old(self).allocated_ppn(p)),
            final(self).outstanding() == old(self).outstanding() - 1,
    {
        let index = (ppn - self.base_ppn) as usize;
        self.allocator.dealloc(index);
        proof {
            assert forall|p: u64| p != ppn implies
                (self.allocated_ppn(p) <==> old(self).allocated_ppn(p)) by {
                if self.base_ppn <= p < self.base_ppn + self.allocator.capacity_spec() {
                    assert((p - self.base_ppn) as usize != index);
                }
            }
        }
    }
}

} // verus!
