//! One page table and the tracker owning its frame.
//!
//! A page table is 512 entries filling one physical page.  A
//! [`PageTableTracker`] owns the frame the table lives in; building one from
//! a freshly allocated frame zeroes every entry.

use vstd::prelude::*;
use crate::config::PAGE_TABLE_ENTRIES;
use crate::frame::FrameTracker;
use crate::pte::PageTableEntry;

verus! {

/// Owns one frame holding a page table of 512 entries.
pub struct PageTableTracker {
    /// The physical page the table lives in.
    pub ppn: u64,
    /// The table's entries.
    pub entries: Vec<PageTableEntry>,
}

impl PageTableTracker {
    /// A table always has exactly 512 entries.
    pub open spec fn wf(&self) -> bool {
        self.entries@.len() == PAGE_TABLE_ENTRIES
    }

    /// Take over a freshly allocated frame and zero the table.
    pub fn new(frame: FrameTracker) -> (r: PageTableTracker)
        ensures
            r.wf(),
            r.ppn == frame.ppn,
            forall|k: int| 0 <= k < PAGE_TABLE_ENTRIES ==> r.entries@[k].bits == 0,
    {
        let mut entries: Vec<PageTableEntry> = Vec::new();
        while entries.len() < PAGE_TABLE_ENTRIES
            invariant
                entries@.len() <= PAGE_TABLE_ENTRIES,
                forall|k: int| 0 <= k < entries@.len() ==> entries@[k].bits == 0,
            decreases PAGE_TABLE_ENTRIES - entries@.len(),
        {
            entries.push(PageTableEntry::empty());
        }
        PageTableTracker { ppn: frame.ppn, entries }
    }

    /// Read entry `index`.
    pub fn entry(&self, index: usize) -> (r: PageTableEntry)
        requires
            self.wf(),
            index < PAGE_TABLE_ENTRIES,
        ensures
            r == self.entries@[index as int],
    {
        self.entries[index]
    }

    /// Write entry `index`.
    pub fn set_entry(&mut self, index: usize, entry: PageTableEntry)
        requires
            old(self).wf(),
            index < PAGE_TABLE_ENTRIES,
        ensures
            final(self).wf(),
            final(self).ppn == old(self).ppn,
            final(self).entries@ == old(self).entries@.update(index as int, entry),
    {
        self.entries.set(index, entry);
    }
}

} // verus!
