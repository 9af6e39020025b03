//! The swap store and its page trackers.
//!
//! The swap file holds up to [`SWAP_FILE_CAPACITY`] pages, with a stacked
//! allocator governing the slot indices.  On hardware the page contents live
//! in a file on the root filesystem; the model keeps them in the store, so
//! that reading a slot is stated exactly: it returns what was last written.
//! A [`SwapTracker`] is the exclusively owned handle to one slot; releasing
//! it frees the slot (on hardware this is the tracker's drop).

use vstd::prelude::*;
use crate::KernelError;
use crate::allocator::{Allocator, AllocatorImpl};
use crate::config::{PAGE_SIZE, SWAP_FILE_CAPACITY};

verus! {

/// The fixed-capacity page store backing demand paging.
pub struct SwapStore {
    /// Governs which slot indices are handed out.
    pub allocator: AllocatorImpl,
    /// The bytes of each slot; a slot never written yet is empty.
    pub pages: Vec<Vec<u8>>,
}

impl SwapStore {
    /// Internal consistency.
    pub open spec fn inv(&self) -> bool {
        &&& self.allocator.inv()
        &&& self.allocator.capacity_spec() == SWAP_FILE_CAPACITY
        &&& self.pages@.len() == SWAP_FILE_CAPACITY
        &&& forall|k: int|
                0 <= k < self.pages@.len()
                    ==> (#[trigger] self.pages@[k]@.len() == 0
                        || self.pages@[k]@.len() == PAGE_SIZE)
    }

    /// Whether `index` is handed out to a tracker.
    pub open spec fn slot_allocated(&self, index: usize) -> bool {
        self.allocator.allocated(index)
    }

    /// Whether slot `index` has ever been written.
    pub open spec fn written(&self, index: int) -> bool {
        self.pages@[index]@.len() == PAGE_SIZE
    }

    /// The bytes of slot `index`.
    pub open spec fn page_at(&self, index: int) -> Seq<u8> {
        self.pages@[index]@
    }

    /// How many slots are handed out right now.
    pub open spec fn outstanding(&self) -> int {
        self.allocator.outstanding()
    }

    /// Create an empty store of [`SWAP_FILE_CAPACITY`] slots.
    pub fn new() -> (r: SwapStore)
        ensures
            r.inv(),
            r.outstanding() == 0,
            forall|i: usize| !r.slot_allocated(i),
            forall|i: int| 0 <= i < SWAP_FILE_CAPACITY ==> !r.written(i),
    {
        let mut pages: Vec<Vec<u8>> = Vec::new();
        while pages.len() < SWAP_FILE_CAPACITY
            invariant
                pages@.len() <= SWAP_FILE_CAPACITY,
                forall|k: int| 0 <= k < pages@.len() ==> #[trigger] pages@[k]@.len() == 0,
            decreases SWAP_FILE_CAPACITY - pages@.len(),
        {
            pages.push(Vec::new());
        }
        SwapStore { allocator: AllocatorImpl::new(SWAP_FILE_CAPACITY), pages }
    }

    /// Hand out a free slot; fails exactly when all slots are out.
    pub fn allocate(&mut self) -> (r: Result<usize, KernelError>)
        requires
            old(self).inv(),
        ensures
            final(self).inv(),
            final(self).pages@ == old(self).pages@,
            r matches Err(e) ==> e == KernelError::OutOfSwapSlots,
            r is Err <==> old(self).outstanding() == SWAP_FILE_CAPACITY,
            r is Err ==> final(self).outstanding() == old(self).outstanding()
                && (forall|i: usize|
                        final(self).slot_allocated(i) <==> old(self).slot_allocated(i)),
            r matches Ok(i) ==> {
                &&& i < SWAP_FILE_CAPACITY
                &&& !old(self).slot_allocated(i)
                &&& final(self).slot_allocated(i)
                &&& forall|j: usize|
                        j != i ==> (final(self).slot_allocated(j) <==> old(self).slot_allocated(j))
                &&& final(self).outstanding() == old(self).outstanding() + 1
            },
    {
        match self.allocator.allocate() {
            Some(i) => Ok(i),
            None => Err(KernelError::OutOfSwapSlots),
        }
    }

    /// Take back a slot handed out before; its bytes become free garbage.
    pub fn dealloc(&mut self, index: usize)
        requires
            old(self).inv(),
            old(self).slot_allocated(index),
        ensures
            final(self).inv(),
            final(self).pages@ == old(self).pages@,
            !final(self).slot_allocated(index),
            forall|j: usize|
                j != index ==> (final(self).slot_allocated(j) <==> old(self).slot_allocated(j)),
            final(self).outstanding() == old(self).outstanding() - 1,
    {
        self.allocator.dealloc(index);
    }

    /// Write one page of bytes into slot `index`.
    pub fn write_page(&mut self, index: usize, data: &Vec<u8>)
        requires
            old(self).inv(),
            index < SWAP_FILE_CAPACITY,
            data@.len() == PAGE_SIZE,
        ensures
            final(self).inv(),
            final(self).allocator == old(self).allocator,
            final(self).page_at(index as int) == data@,
            final(self).written(index as int),
            forall|j: int|
                0 <= j < SWAP_FILE_CAPACITY && j != index
                    ==> final(self).page_at(j) == old(self).page_at(j),
    {
        let copy = data.clone();
        proof {
            assert forall|k: int| 0 <= k < copy@.len() implies copy@[k] == data@[k] by {
                assert(vstd::pervasive::cloned::<u8>(data@[k], copy@[k]));
            }
            assert(copy@ =~= data@);
        }
        self.pages.set(index, copy);
    }

    /// Read the page of bytes last written into slot `index`.
    pub fn read_page(&self, index: usize) -> (r: Vec<u8>)
        requires
            self.inv(),
            index < SWAP_FILE_CAPACITY,
            self.written(index as int),
        ensures
            r@ == self.page_at(index as int),
            r@.len() == PAGE_SIZE,
    {
        let page = &self.pages[index];
        let copy = page.clone();
        proof {
            assert forall|k: int| 0 <= k < copy@.len() implies copy@[k] == page@[k] by {
                assert(vstd::pervasive::cloned::<u8>(page@[k], copy@[k]));
            }
            assert(copy@ =~= page@);
        }
        copy
    }
}

/// The exclusively owned handle to one swap slot.
#[derive(Debug)]
pub struct SwapTracker {
    /// The slot this tracker owns.
    pub index: usize,
}

impl SwapTracker {
    /// Take a free slot out of the store.
    pub fn new(store: &mut SwapStore) -> (r: Result<SwapTracker, KernelError>)
        requires
            old(store).inv(),
        ensures
            final(store).inv(),
            final(store).pages@ == old(store).pages@,
            r matches Err(e) ==> e == KernelError::OutOfSwapSlots,
            r is Err <==> old(store).outstanding() == SWAP_FILE_CAPACITY,
            r is Err ==> final(store).outstanding() == old(store).outstanding()
                && (forall|i: usize|
                        final(store).slot_allocated(i) <==> old(store).slot_allocated(i)),
            r matches Ok(t) ==> {
                &&& t.index < SWAP_FILE_CAPACITY
                &&& !old(store).slot_allocated(t.index)
                &&& final(store).slot_allocated(t.index)
                &&& forall|j: usize|
                        j != t.index
                            ==> (final(store).slot_allocated(j) <==> old(store).slot_allocated(j))
                &&& final(store).outstanding() == old(store).outstanding() + 1
            },
    {
        match store.allocate() {
            Ok(index) => Ok(SwapTracker { index }),
            Err(e) => Err(e),
        }
    }

    /// Read this slot's page.
    pub fn read(&self, store: &SwapStore) -> (r: Vec<u8>)
        requires
            store.inv(),
            self.index < SWAP_FILE_CAPACITY,
            store.written(self.index as int),
        ensures
            r@ == store.page_at(self.index as int),
            r@.len() == PAGE_SIZE,
    {
        store.read_page(self.index)
    }

    /// Write one page of bytes into this slot.
    pub fn write(&self, store: &mut SwapStore, data: &Vec<u8>)
        requires
            old(store).inv(),
            self.index < SWAP_FILE_CAPACITY,
            data@.len() == PAGE_SIZE,
        ensures
            final(store).inv(),
            final(store).allocator == old(store).allocator,
            final(store).page_at(self.index as int) == data@,
            final(store).written(self.index as int),
            forall|j: int|
                0 <= j < SWAP_FILE_CAPACITY && j != self.index
                    ==> final(store).page_at(j) == old(store).page_at(j),
    {
        store.write_page(self.index, data);
    }

    /// Give the slot back to the store.  On hardware this is the tracker's
    /// drop; the model frees explicitly.
    pub fn release(self, store: &mut SwapStore)
        requires
            old(store).inv(),
            old(store).slot_allocated(self.index),
        ensures
            final(store).inv(),
            final(store).pages@ == old(store).pages@,
            !final(store).slot_allocated(self.index),
            forall|j: usize|
                j != self.index
                    ==> (final(store).slot_allocated(j) <==> old(store).slot_allocated(j)),
            final(store).outstanding() == old(store).outstanding() - 1,
    {
        store.dealloc(self.index);
    }
}

} // verus!
