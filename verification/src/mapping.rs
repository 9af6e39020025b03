//! The Sv39 mapping of one address space.
//!
//! A [`Mapping`] owns the page-table tree (one root table, the middle and
//! leaf tables it links to), the swapper holding the resident framed pages,
//! and the map from swapped-out pages to their swap slots.  The well-formed
//! predicate states the duality the rest of the kernel relies on: a resident
//! page has a valid leaf entry pointing at its frame, a swapped-out page has
//! a non-empty invalid entry with its flags preserved, and the resident
//! count never passes the quota.

use vstd::prelude::*;
use crate::KernelError;
use crate::addr::{
    lemma_levels_injective, spec_level0, spec_level1, spec_level2, PhysicalAddress,
    PhysicalPageNumber, VirtualAddress, VirtualPageNumber, VPN_LIMIT,
};
use crate::collections::{
    swap_map_clear, swap_map_insert, swap_map_new, swap_map_remove, swap_map_view, SwapMap,
};
use crate::config::{KERNEL_LINEAR_OFFSET_PAGES, PAGE_SIZE, SATP_MODE_SV39, SWAP_FILE_CAPACITY};
use crate::frame::{zero_page, zero_page_seq, FrameAllocator, FrameTracker};
use crate::segment::{
    build_page_data, spec_end_vpn, spec_page_byte, spec_start_vpn, MapType, Segment,
};
use crate::swap::SwapTracker;
use crate::page_table::PageTableTracker;
use crate::pte::{spec_flags, spec_link, spec_ppn, spec_valid, PageTableEntry};
use crate::swap::SwapStore;
use crate::swapper::{Swapper, SwapperImpl};

verus! {

/// Whether some table of `tables` lives in page `ppn`.
pub open spec fn has_table(tables: Seq<PageTableTracker>, ppn: u64) -> bool {
    exists|i: int| 0 <= i < tables.len() && tables[i].ppn == ppn
}

/// The table of `tables` living in page `ppn`.
pub open spec fn table_of(tables: Seq<PageTableTracker>, ppn: u64) -> PageTableTracker {
    tables[choose|i: int| 0 <= i < tables.len() && tables[i].ppn == ppn]
}

/// No two tables of `tables` share a page.
pub open spec fn distinct_ppns(tables: Seq<PageTableTracker>) -> bool {
    forall|i: int, j: int| 0 <= i < j < tables.len() ==> tables[i].ppn != tables[j].ppn
}

/// With distinct pages, the table found under a page is the one at any index
/// carrying that page.
proof fn lemma_table_of_index(tables: Seq<PageTableTracker>, i: int)
    requires
        distinct_ppns(tables),
        0 <= i < tables.len(),
    ensures
        has_table(tables, tables[i].ppn),
        table_of(tables, tables[i].ppn) == tables[i],
{
    let p = tables[i].ppn;
    assert(has_table(tables, p));
    let j = choose|j: int| 0 <= j < tables.len() && tables[j].ppn == p;
    if i != j {
        assert(tables[i].ppn != tables[j].ppn);
    }
}

/// Appending a table with a fresh page disturbs no existing lookup.
proof fn lemma_table_of_push(tables: Seq<PageTableTracker>, t: PageTableTracker, p: u64)
    requires
        distinct_ppns(tables),
        !has_table(tables, t.ppn),
    ensures
        distinct_ppns(tables.push(t)),
        has_table(tables.push(t), t.ppn),
        table_of(tables.push(t), t.ppn) == t,
        has_table(tables, p) ==> has_table(tables.push(t), p)
            && table_of(tables.push(t), p) == table_of(tables, p),
        p != t.ppn && !has_table(tables, p) ==> !has_table(tables.push(t), p),
{
    let pushed = tables.push(t);
    assert(pushed[tables.len() as int] == t);
    assert forall|i: int, j: int| 0 <= i < j < pushed.len() implies
        pushed[i].ppn != pushed[j].ppn by {
        if j < tables.len() {
            assert(tables[i].ppn != tables[j].ppn);
        } else {
            assert(pushed[j] == t);
            if pushed[i].ppn == t.ppn {
                assert(has_table(tables, t.ppn));
            }
        }
    }
    lemma_table_of_index(pushed, tables.len() as int);
    if has_table(tables, p) {
        let i = choose|i: int| 0 <= i < tables.len() && tables[i].ppn == p;
        assert(pushed[i].ppn == p);
        lemma_table_of_index(pushed, i);
        lemma_table_of_index(tables, i);
    }
    if p != t.ppn && !has_table(tables, p) {
        if has_table(pushed, p) {
            let i = choose|i: int| 0 <= i < pushed.len() && pushed[i].ppn == p;
            assert(i < tables.len() || pushed[i] == t);
            if i < tables.len() {
                assert(tables[i].ppn == p);
            }
        }
    }
}

/// Updating a table in place, keeping its page, disturbs no other lookup.
proof fn lemma_table_of_update(
    tables: Seq<PageTableTracker>,
    i: int,
    t: PageTableTracker,
    p: u64,
)
    requires
        distinct_ppns(tables),
        0 <= i < tables.len(),
        t.ppn == tables[i].ppn,
    ensures
        distinct_ppns(tables.update(i, t)),
        has_table(tables.update(i, t), p) == has_table(tables, p),
        has_table(tables, p) && p != t.ppn
            ==> table_of(tables.update(i, t), p) == table_of(tables, p),
        table_of(tables.update(i, t), t.ppn) == t,
{
    let updated = tables.update(i, t);
    assert forall|a: int, b: int| 0 <= a < b < updated.len() implies
        updated[a].ppn != updated[b].ppn by {
        assert(tables[a].ppn != tables[b].ppn);
    }
    assert forall|a: int| 0 <= a < updated.len() implies updated[a].ppn == tables[a].ppn by {}
    if has_table(tables, p) {
        let a = choose|a: int| 0 <= a < tables.len() && tables[a].ppn == p;
        assert(updated[a].ppn == p);
        assert(has_table(updated, p));
        if p != t.ppn {
            assert(a != i);
            lemma_table_of_index(updated, a);
            lemma_table_of_index(tables, a);
        }
    }
    if has_table(updated, p) {
        let a = choose|a: int| 0 <= a < updated.len() && updated[a].ppn == p;
        assert(tables[a].ppn == p);
        assert(has_table(tables, p));
    }
    lemma_table_of_index(updated, i);
}

/// Find the index of the table living in page `ppn`.
fn find_table(tables: &Vec<PageTableTracker>, ppn: u64) -> (r: Option<usize>)
    ensures
        r matches Some(i) ==> i < tables@.len() && tables@[i as int].ppn == ppn,
        r is None ==> !has_table(tables@, ppn),
{
    let mut i: usize = 0;
    while i < tables.len()
        invariant
            i <= tables@.len(),
            forall|j: int| 0 <= j < i ==> tables@[j].ppn != ppn,
        decreases tables@.len() - i,
    {
        if tables[i].ppn == ppn {
            return Some(i);
        }
        i = i + 1;
    }
    proof {
        if has_table(tables@, ppn) {
            let j = choose|j: int| 0 <= j < tables@.len() && tables@[j].ppn == ppn;
            assert(tables@[j].ppn != ppn);
        }
    }
    None
}

/// One address space: its page-table tree, its resident frames, and its
/// swapped-out pages.
pub struct Mapping {
    /// The root page table.
    pub root_table: PageTableTracker,
    /// The middle-level tables the root links to.
    pub mid_tables: Vec<PageTableTracker>,
    /// The leaf-level tables the middle tables link to.
    pub leaf_tables: Vec<PageTableTracker>,
    /// The physical page of the root table.
    pub root_ppn: u64,
    /// The resident framed pages, governed by the replacement policy.
    pub mapped_pairs: SwapperImpl,
    /// The swap slot of each swapped-out page.
    pub swapped_pages: SwapMap,
}

impl Mapping {
    /// The raw bits of the leaf entry a three-level walk reaches for `vpn`;
    /// zero when the walk hits an empty entry.
    pub open spec fn pte_of(self, vpn: u64) -> u64 {
        let e2 = self.root_table.entries@[spec_level2(vpn)].bits;
        if e2 == 0 || !has_table(self.mid_tables@, spec_ppn(e2)) {
            0
        } else {
            let mid = table_of(self.mid_tables@, spec_ppn(e2));
            let e1 = mid.entries@[spec_level1(vpn)].bits;
            if e1 == 0 || !has_table(self.leaf_tables@, spec_ppn(e1)) {
                0
            } else {
                table_of(self.leaf_tables@, spec_ppn(e1)).entries@[spec_level0(vpn)].bits
            }
        }
    }

    /// Whether the walk for `vpn` reaches a leaf slot.
    pub open spec fn path_exists(self, vpn: u64) -> bool {
        let e2 = self.root_table.entries@[spec_level2(vpn)].bits;
        &&& e2 != 0
        &&& has_table(self.mid_tables@, spec_ppn(e2))
        &&& {
            let e1 = table_of(self.mid_tables@, spec_ppn(e2)).entries@[spec_level1(vpn)].bits;
            &&& e1 != 0
            &&& has_table(self.leaf_tables@, spec_ppn(e1))
        }
    }

    /// The page-table tree is well formed: every table has 512 entries, no
    /// two tables share a page, non-empty root and middle entries are links
    /// into the next level, and no two links share a target.
    pub open spec fn wf_tables(self) -> bool {
        &&& self.root_table.wf()
        &&& self.root_ppn == self.root_table.ppn
        &&& forall|i: int|
                0 <= i < self.mid_tables@.len() ==> (#[trigger] self.mid_tables@[i]).wf()
        &&& forall|i: int|
                0 <= i < self.leaf_tables@.len() ==> (#[trigger] self.leaf_tables@[i]).wf()
        &&& distinct_ppns(self.mid_tables@)
        &&& distinct_ppns(self.leaf_tables@)
        &&& forall|i: int, j: int|
                0 <= i < self.mid_tables@.len() && 0 <= j < self.leaf_tables@.len()
                    ==> self.mid_tables@[i].ppn != self.leaf_tables@[j].ppn
        &&& forall|i: int|
                0 <= i < self.mid_tables@.len()
                    ==> (#[trigger] self.mid_tables@[i]).ppn != self.root_table.ppn
        &&& forall|i: int|
                0 <= i < self.leaf_tables@.len()
                    ==> (#[trigger] self.leaf_tables@[i]).ppn != self.root_table.ppn
        &&& forall|s: int|
                0 <= s < 512 && (#[trigger] self.root_table.entries@[s]).bits != 0 ==> {
                    &&& spec_link(self.root_table.entries@[s].bits)
                    &&& has_table(self.mid_tables@, spec_ppn(self.root_table.entries@[s].bits))
                }
        &&& forall|s: int, t: int|
                0 <= s < t < 512 && self.root_table.entries@[s].bits != 0
                    && self.root_table.entries@[t].bits != 0
                    ==> spec_ppn((#[trigger] self.root_table.entries@[s]).bits)
                        != spec_ppn((#[trigger] self.root_table.entries@[t]).bits)
        &&& forall|i: int, s: int|
                0 <= i < self.mid_tables@.len() && 0 <= s < 512
                    && (#[trigger] self.mid_tables@[i].entries@[s]).bits != 0 ==> {
                    &&& spec_link(self.mid_tables@[i].entries@[s].bits)
                    &&& has_table(
                        self.leaf_tables@,
                        spec_ppn(self.mid_tables@[i].entries@[s].bits),
                    )
                }
        &&& forall|i: int, s: int, j: int, t: int|
                0 <= i < self.mid_tables@.len() && 0 <= s < 512
                    && 0 <= j < self.mid_tables@.len() && 0 <= t < 512 && (i, s) != (j, t)
                    && (#[trigger] self.mid_tables@[i].entries@[s]).bits != 0
                    && (#[trigger] self.mid_tables@[j].entries@[t]).bits != 0
                    ==> spec_ppn(self.mid_tables@[i].entries@[s].bits)
                        != spec_ppn(self.mid_tables@[j].entries@[t].bits)
    }

    /// The resident pages: each maps to its frame's page number and bytes.
    pub open spec fn resident(self) -> Map<u64, (u64, Seq<u8>)> {
        self.mapped_pairs.resident()
    }

    /// The swapped-out pages: each maps to its swap slot.
    pub open spec fn swapped(self) -> Map<u64, usize> {
        swap_map_view(self.swapped_pages)
    }

    /// The frame quota of this address space.
    pub open spec fn quota(self) -> int {
        self.mapped_pairs.quota_spec()
    }

    /// The duality between the bookkeeping and the page-table tree, plus the
    /// quota bound.
    pub open spec fn wf(self) -> bool {
        &&& self.wf_tables()
        &&& self.mapped_pairs.inv()
        &&& self.resident().dom().finite()
        &&& self.resident().dom().len() <= self.quota()
        &&& forall|vpn: u64| #[trigger] self.resident().contains_key(vpn) ==> {
                &&& vpn < VPN_LIMIT
                &&& spec_valid(self.pte_of(vpn))
                &&& spec_ppn(self.pte_of(vpn)) == self.resident()[vpn].0
                &&& spec_flags(self.pte_of(vpn)) / 2 > 0
                &&& self.resident()[vpn].0 < crate::addr::PPN_LIMIT
                &&& self.resident()[vpn].1.len() == PAGE_SIZE
                &&& !self.swapped().contains_key(vpn)
            }
        &&& forall|v1: u64, v2: u64|
                #[trigger] self.resident().contains_key(v1)
                    && #[trigger] self.resident().contains_key(v2) && v1 != v2
                    ==> self.resident()[v1].0 != self.resident()[v2].0
        &&& forall|vpn: u64| #[trigger] self.swapped().contains_key(vpn) ==> {
                &&& vpn < VPN_LIMIT
                &&& self.pte_of(vpn) != 0
                &&& !spec_valid(self.pte_of(vpn))
                &&& spec_ppn(self.pte_of(vpn)) == 0
                &&& self.swapped()[vpn] < SWAP_FILE_CAPACITY
            }
        &&& forall|v1: u64, v2: u64|
                #[trigger] self.swapped().contains_key(v1)
                    && #[trigger] self.swapped().contains_key(v2) && v1 != v2
                    ==> self.swapped()[v1] != self.swapped()[v2]
    }

    /// Every table frame and resident page frame of this mapping is held
    /// from `fa`.
    pub open spec fn owned_by(self, fa: FrameAllocator) -> bool {
        &&& fa.allocated_ppn(self.root_table.ppn)
        &&& forall|i: int|
                0 <= i < self.mid_tables@.len()
                    ==> fa.allocated_ppn((#[trigger] self.mid_tables@[i]).ppn)
        &&& forall|i: int|
                0 <= i < self.leaf_tables@.len()
                    ==> fa.allocated_ppn((#[trigger] self.leaf_tables@[i]).ppn)
        &&& forall|vpn: u64|
                #[trigger] self.resident().contains_key(vpn)
                    ==> fa.allocated_ppn(self.resident()[vpn].0)
    }

    /// The swap store holds, written, every slot this mapping swapped to.
    pub open spec fn consistent_with(self, store: SwapStore) -> bool {
        forall|vpn: u64| #[trigger] self.swapped().contains_key(vpn) ==> {
            &&& store.slot_allocated(self.swapped()[vpn])
            &&& store.written(self.swapped()[vpn] as int)
        }
    }

    /// Whether `vpn` belongs to a framed segment of this mapping.
    pub open spec fn framed_mapped(self, vpn: u64) -> bool {
        self.resident().contains_key(vpn) || self.swapped().contains_key(vpn)
    }

    /// The current bytes of framed page `vpn`: in its frame while resident,
    /// in its swap slot while swapped out.
    pub open spec fn page_bytes(self, store: SwapStore, vpn: u64) -> Seq<u8> {
        if self.resident().contains_key(vpn) {
            self.resident()[vpn].1
        } else {
            store.page_at(self.swapped()[vpn] as int)
        }
    }

    /// Two distinct pages never share a leaf slot.
    proof fn lemma_walk_injective(self, a: u64, b: u64)
        requires
            self.wf_tables(),
            a < VPN_LIMIT,
            b < VPN_LIMIT,
            self.path_exists(a),
            self.path_exists(b),
            table_of(
                self.leaf_tables@,
                spec_ppn(
                    table_of(
                        self.mid_tables@,
                        spec_ppn(self.root_table.entries@[spec_level2(a)].bits),
                    ).entries@[spec_level1(a)].bits,
                ),
            ) == table_of(
                self.leaf_tables@,
                spec_ppn(
                    table_of(
                        self.mid_tables@,
                        spec_ppn(self.root_table.entries@[spec_level2(b)].bits),
                    ).entries@[spec_level1(b)].bits,
                ),
            ),
            spec_level0(a) == spec_level0(b),
        ensures
            a == b,
    {
        let e2a = self.root_table.entries@[spec_level2(a)].bits;
        let e2b = self.root_table.entries@[spec_level2(b)].bits;
        let mida = table_of(self.mid_tables@, spec_ppn(e2a));
        let midb = table_of(self.mid_tables@, spec_ppn(e2b));
        let e1a = mida.entries@[spec_level1(a)].bits;
        let e1b = midb.entries@[spec_level1(b)].bits;
        let ia = choose|i: int|
            0 <= i < self.mid_tables@.len() && self.mid_tables@[i].ppn == spec_ppn(e2a);
        let ib = choose|i: int|
            0 <= i < self.mid_tables@.len() && self.mid_tables@[i].ppn == spec_ppn(e2b);
        let leafa = table_of(self.leaf_tables@, spec_ppn(e1a));
        let la = choose|i: int|
            0 <= i < self.leaf_tables@.len() && self.leaf_tables@[i].ppn == spec_ppn(e1a);
        let lb = choose|i: int|
            0 <= i < self.leaf_tables@.len() && self.leaf_tables@[i].ppn == spec_ppn(e1b);
        assert(self.leaf_tables@[la] == self.leaf_tables@[lb]);
        assert(spec_ppn(e1a) == spec_ppn(e1b));
        assert(self.mid_tables@[ia] == mida && self.mid_tables@[ib] == midb);
        if (ia, spec_level1(a)) != (ib, spec_level1(b)) {
            assert(spec_ppn(self.mid_tables@[ia].entries@[spec_level1(a)].bits)
                != spec_ppn(self.mid_tables@[ib].entries@[spec_level1(b)].bits));
        }
        assert(ia == ib && spec_level1(a) == spec_level1(b));
        assert(mida.ppn == midb.ppn);
        assert(spec_ppn(e2a) == spec_ppn(e2b));
        if spec_level2(a) != spec_level2(b) {
            if spec_level2(a) < spec_level2(b) {
                assert(spec_ppn(self.root_table.entries@[spec_level2(a)].bits)
                    != spec_ppn(self.root_table.entries@[spec_level2(b)].bits));
            } else {
                assert(spec_ppn(self.root_table.entries@[spec_level2(b)].bits)
                    != spec_ppn(self.root_table.entries@[spec_level2(a)].bits));
            }
        }
        assert(spec_level2(a) == spec_level2(b));
        lemma_levels_injective(a, b);
    }

    /// Create a mapping with a fresh, empty root table and the given frame
    /// quota; fails exactly when no frame is free.
    pub fn new(fa: &mut FrameAllocator, frame_quota: usize) -> (r: Result<Mapping, KernelError>)
        requires
            old(fa).inv(),
        ensures
            final(fa).inv(),
            final(fa).base_ppn == old(fa).base_ppn,
            final(fa).capacity_spec() == old(fa).capacity_spec(),
            r matches Err(e) ==> e == KernelError::OutOfFrames
                && old(fa).outstanding() == old(fa).capacity_spec(),
            r is Ok <==> old(fa).outstanding() < old(fa).capacity_spec(),
            r matches Ok(m) ==> {
                &&& m.wf()
                &&& m.owned_by(*final(fa))
                &&& m.quota() == frame_quota
                &&& m.resident() == Map::<u64, (u64, Seq<u8>)>::empty()
                &&& m.swapped() == Map::<u64, usize>::empty()
                &&& forall|w: u64| m.pte_of(w) == 0
                &&& final(fa).outstanding() == old(fa).outstanding() + 1
                &&& forall|p: u64|
                        p != m.root_ppn
                            ==> (final(fa).allocated_ppn(p) <==> old(fa).allocated_ppn(p))
            },
    {
        let frame = match fa.allocate() {
            Ok(f) => f,
            Err(e) => {
                return Err(e);
            }
        };
        let root_table = PageTableTracker::new(frame);
        let root_ppn = root_table.ppn;
        let mut swapped_pages = swap_map_new();
        swap_map_clear(&mut swapped_pages);
        let m = Mapping {
            root_table,
            mid_tables: Vec::new(),
            leaf_tables: Vec::new(),
            root_ppn,
            mapped_pairs: SwapperImpl::new(frame_quota),
            swapped_pages,
        };
        proof {
            assert(m.swapped() =~= Map::<u64, usize>::empty());
            assert(m.resident().dom() =~= Set::<u64>::empty());
        }
        Ok(m)
    }

    /// The `satp` value activating this mapping: the root page number with
    /// the Sv39 mode bits.
    pub fn activate(&self) -> (r: u64)
        ensures
            r == (SATP_MODE_SV39 | self.root_ppn),
    {
        SATP_MODE_SV39 | self.root_ppn
    }

    /// Walk to the middle table under root slot `l2`, creating it if the
    /// slot is empty.  Returns its index into the middle tables.
    fn ensure_mid(&mut self, fa: &mut FrameAllocator, l2: usize) -> (r: Result<usize, KernelError>)
        requires
            old(self).wf(),
            old(fa).inv(),
            old(self).owned_by(*old(fa)),
            l2 < 512,
        ensures
            final(self).wf(),
            final(fa).inv(),
            final(self).owned_by(*final(fa)),
            final(fa).base_ppn == old(fa).base_ppn,
            final(fa).capacity_spec() == old(fa).capacity_spec(),
            old(fa).outstanding() <= final(fa).outstanding() <= old(fa).outstanding() + 1,
            forall|p: u64| old(fa).allocated_ppn(p) ==> final(fa).allocated_ppn(p),
            final(self).root_table.ppn == old(self).root_table.ppn,
            final(self).root_ppn == old(self).root_ppn,
            final(self).leaf_tables@ == old(self).leaf_tables@,
            final(self).mapped_pairs == old(self).mapped_pairs,
            final(self).swapped_pages == old(self).swapped_pages,
            forall|w: u64| final(self).pte_of(w) == old(self).pte_of(w),
            forall|w: u64| old(self).path_exists(w) ==> final(self).path_exists(w),
            r matches Ok(mi) ==> {
                &&& mi < final(self).mid_tables@.len()
                &&& final(self).root_table.entries@[l2 as int].bits != 0
                &&& spec_ppn(final(self).root_table.entries@[l2 as int].bits)
                    == final(self).mid_tables@[mi as int].ppn
            },
            r matches Err(e) ==> e == KernelError::OutOfFrames
                && *final(self) == *old(self)
                && old(fa).outstanding() == old(fa).capacity_spec(),
            old(self).root_table.entries@[l2 as int].bits != 0 ==> r is Ok
                && *final(self) == *old(self) && *final(fa) == *old(fa),
            old(fa).outstanding() < old(fa).capacity_spec() ==> r is Ok,
    {
        let e2 = self.root_table.entry(l2);
        if !e2.is_empty() {
            match find_table(&self.mid_tables, e2.page_number().0) {
                Some(mi) => Ok(mi),
                None => {
                    proof {
                        assert(has_table(self.mid_tables@, spec_ppn(e2.bits)));
                        assert(false);
                    }
                    Err(KernelError::OutOfFrames)
                }
            }
        } else {
            let frame = match fa.allocate() {
                Ok(f) => f,
                Err(e) => {
                    return Err(e);
                }
            };
            let ghost fresh = frame.ppn;
            proof {
                assert(fa.allocated_ppn(fresh));
                assert(fresh < crate::addr::PPN_LIMIT);
                assert(!has_table(self.mid_tables@, fresh)) by {
                    if has_table(self.mid_tables@, fresh) {
                        let i = choose|i: int|
                            0 <= i < self.mid_tables@.len()
                                && self.mid_tables@[i].ppn == fresh;
                        assert(old(fa).allocated_ppn(self.mid_tables@[i].ppn));
                    }
                }
                assert(!has_table(self.leaf_tables@, fresh)) by {
                    if has_table(self.leaf_tables@, fresh) {
                        let i = choose|i: int|
                            0 <= i < self.leaf_tables@.len()
                                && self.leaf_tables@[i].ppn == fresh;
                        assert(old(fa).allocated_ppn(self.leaf_tables@[i].ppn));
                    }
                }
                assert(fresh != self.root_table.ppn);
            }
            let tracker = PageTableTracker::new(frame);
            let link = PageTableEntry::new(Some(PhysicalPageNumber(tracker.ppn)), 0);
            proof {
                crate::pte::lemma_encode_decode(fresh, 1);
            }
            let mi = self.mid_tables.len();
            let ghost pre = *self;
            self.root_table.set_entry(l2, link);
            self.mid_tables.push(tracker);
            proof {
                let news = *self;
                assert(news.mid_tables@ == pre.mid_tables@.push(tracker));
                assert(spec_ppn(link.bits) == fresh && spec_link(link.bits));
                lemma_table_of_push(pre.mid_tables@, tracker, 0);
                assert forall|p: u64| has_table(pre.mid_tables@, p)
                    implies has_table(news.mid_tables@, p)
                        && table_of(news.mid_tables@, p) == table_of(pre.mid_tables@, p) by {
                    lemma_table_of_push(pre.mid_tables@, tracker, p);
                }
                assert forall|p: u64| !has_table(pre.mid_tables@, p) && p != fresh
                    implies !has_table(news.mid_tables@, p) by {
                    lemma_table_of_push(pre.mid_tables@, tracker, p);
                }
                assert(news.root_table.entries@
                    == pre.root_table.entries@.update(l2 as int, link));
                // The tree stays well formed.
                assert forall|s: int|
                    0 <= s < 512 && (#[trigger] news.root_table.entries@[s]).bits != 0
                        implies spec_link(news.root_table.entries@[s].bits)
                            && has_table(
                                news.mid_tables@,
                                spec_ppn(news.root_table.entries@[s].bits),
                            ) by {
                    if s != l2 {
                        assert(pre.root_table.entries@[s].bits
                            == news.root_table.entries@[s].bits);
                    }
                }
                assert forall|s: int, t: int|
                    0 <= s < t < 512 && news.root_table.entries@[s].bits != 0
                        && news.root_table.entries@[t].bits != 0
                        implies spec_ppn((#[trigger] news.root_table.entries@[s]).bits)
                            != spec_ppn((#[trigger] news.root_table.entries@[t]).bits) by {
                    if s != l2 && t != l2 {
                    } else if s == l2 {
                        let p = spec_ppn(pre.root_table.entries@[t].bits);
                        assert(has_table(pre.mid_tables@, p));
                        let i = choose|i: int|
                            0 <= i < pre.mid_tables@.len() && pre.mid_tables@[i].ppn == p;
                        assert(old(fa).allocated_ppn(p));
                        assert(p != fresh);
                    } else {
                        let p = spec_ppn(pre.root_table.entries@[s].bits);
                        assert(has_table(pre.mid_tables@, p));
                        let i = choose|i: int|
                            0 <= i < pre.mid_tables@.len() && pre.mid_tables@[i].ppn == p;
                        assert(old(fa).allocated_ppn(p));
                        assert(p != fresh);
                    }
                }
                assert forall|i: int, s: int|
                    0 <= i < news.mid_tables@.len() && 0 <= s < 512
                        && (#[trigger] news.mid_tables@[i].entries@[s]).bits != 0
                        implies spec_link(news.mid_tables@[i].entries@[s].bits)
                            && has_table(
                                news.leaf_tables@,
                                spec_ppn(news.mid_tables@[i].entries@[s].bits),
                            ) by {
                    if i < pre.mid_tables@.len() {
                        assert(news.mid_tables@[i] == pre.mid_tables@[i]);
                    } else {
                        assert(news.mid_tables@[i] == tracker);
                        assert(tracker.entries@[s].bits == 0);
                    }
                }
                assert forall|i: int, s: int, j: int, t: int|
                    0 <= i < news.mid_tables@.len() && 0 <= s < 512
                        && 0 <= j < news.mid_tables@.len() && 0 <= t < 512 && (i, s) != (j, t)
                        && (#[trigger] news.mid_tables@[i].entries@[s]).bits != 0
                        && (#[trigger] news.mid_tables@[j].entries@[t]).bits != 0
                        implies spec_ppn(news.mid_tables@[i].entries@[s].bits)
                            != spec_ppn(news.mid_tables@[j].entries@[t].bits) by {
                    if i < pre.mid_tables@.len() && j < pre.mid_tables@.len() {
                        assert(news.mid_tables@[i] == pre.mid_tables@[i]);
                        assert(news.mid_tables@[j] == pre.mid_tables@[j]);
                    } else if i >= pre.mid_tables@.len() {
                        assert(news.mid_tables@[i] == tracker);
                        assert(tracker.entries@[s].bits == 0);
                    } else {
                        assert(news.mid_tables@[j] == tracker);
                        assert(tracker.entries@[t].bits == 0);
                    }
                }
                // Every page's walk is undisturbed.
                assert forall|w: u64| news.pte_of(w) == pre.pte_of(w)
                    && (pre.path_exists(w) ==> news.path_exists(w)) by {
                    if spec_level2(w) == l2 {
                        assert(pre.root_table.entries@[spec_level2(w)].bits == 0);
                        assert(pre.pte_of(w) == 0);
                        assert(news.root_table.entries@[spec_level2(w)].bits == link.bits);
                        assert(table_of(news.mid_tables@, fresh) == tracker);
                        assert(tracker.entries@[spec_level1(w)].bits == 0);
                        assert(news.pte_of(w) == 0);
                    } else {
                        let e2w = pre.root_table.entries@[spec_level2(w)].bits;
                        assert(news.root_table.entries@[spec_level2(w)].bits == e2w);
                        if e2w != 0 && has_table(pre.mid_tables@, spec_ppn(e2w)) {
                            assert(table_of(news.mid_tables@, spec_ppn(e2w))
                                == table_of(pre.mid_tables@, spec_ppn(e2w)));
                        } else if e2w != 0 {
                            assert(spec_ppn(e2w) != fresh) by {
                                if spec_ppn(e2w) == fresh {
                                    assert(has_table(pre.mid_tables@, spec_ppn(e2w)));
                                }
                            }
                        }
                    }
                }
                lemma_table_of_index(news.mid_tables@, mi as int);
                assert forall|i: int| 0 <= i < news.mid_tables@.len() implies
                    (#[trigger] news.mid_tables@[i]).wf() by {
                    if i < pre.mid_tables@.len() {
                        assert(news.mid_tables@[i] == pre.mid_tables@[i]);
                    } else {
                        assert(news.mid_tables@[i] == tracker);
                    }
                }
                assert forall|i: int, j: int|
                    0 <= i < news.mid_tables@.len() && 0 <= j < news.leaf_tables@.len()
                        implies news.mid_tables@[i].ppn != news.leaf_tables@[j].ppn by {
                    if i < pre.mid_tables@.len() {
                        assert(news.mid_tables@[i] == pre.mid_tables@[i]);
                    } else {
                        assert(news.mid_tables@[i] == tracker);
                        assert(old(fa).allocated_ppn(news.leaf_tables@[j].ppn));
                    }
                }
                assert forall|i: int| 0 <= i < news.mid_tables@.len() implies
                    (#[trigger] news.mid_tables@[i]).ppn != news.root_table.ppn by {
                    if i < pre.mid_tables@.len() {
                        assert(news.mid_tables@[i] == pre.mid_tables@[i]);
                    } else {
                        assert(news.mid_tables@[i] == tracker);
                    }
                }
                assert forall|i: int| 0 <= i < news.mid_tables@.len() implies
                    fa.allocated_ppn((#[trigger] news.mid_tables@[i]).ppn) by {
                    if i < pre.mid_tables@.len() {
                        assert(news.mid_tables@[i] == pre.mid_tables@[i]);
                        assert(old(fa).allocated_ppn(pre.mid_tables@[i].ppn));
                    } else {
                        assert(news.mid_tables@[i] == tracker);
                    }
                }
                assert(news.wf_tables());
                assert(news.mapped_pairs.inv());
                assert(news.resident() == pre.resident());
                assert(news.swapped() == pre.swapped());
                assert forall|vpn: u64| #[trigger] news.resident().contains_key(vpn) implies {
                    &&& vpn < VPN_LIMIT
                    &&& spec_valid(news.pte_of(vpn))
                    &&& spec_ppn(news.pte_of(vpn)) == news.resident()[vpn].0
                    &&& spec_flags(news.pte_of(vpn)) / 2 > 0
                    &&& news.resident()[vpn].1.len() == PAGE_SIZE
                    &&& !news.swapped().contains_key(vpn)
                } by {
                    assert(pre.resident().contains_key(vpn));
                    assert(news.pte_of(vpn) == pre.pte_of(vpn));
                }
                assert forall|vpn: u64| #[trigger] news.swapped().contains_key(vpn) implies {
                    &&& vpn < VPN_LIMIT
                    &&& news.pte_of(vpn) != 0
                    &&& !spec_valid(news.pte_of(vpn))
                    &&& spec_ppn(news.pte_of(vpn)) == 0
                    &&& news.swapped()[vpn] < SWAP_FILE_CAPACITY
                } by {
                    assert(pre.swapped().contains_key(vpn));
                    assert(news.pte_of(vpn) == pre.pte_of(vpn));
                }
                assert(news.wf());
            }
            Ok(mi)
        }
    }

    /// Walk to the leaf table under slot `l1` of middle table `mi`, creating
    /// it if the slot is empty.  Returns its index into the leaf tables.
    fn ensure_leaf(
        &mut self,
        fa: &mut FrameAllocator,
        mi: usize,
        l1: usize,
    ) -> (r: Result<usize, KernelError>)
        requires
            old(self).wf(),
            old(fa).inv(),
            old(self).owned_by(*old(fa)),
            mi < old(self).mid_tables@.len(),
            l1 < 512,
        ensures
            final(self).wf(),
            final(fa).inv(),
            final(self).owned_by(*final(fa)),
            final(fa).base_ppn == old(fa).base_ppn,
            final(fa).capacity_spec() == old(fa).capacity_spec(),
            old(fa).outstanding() <= final(fa).outstanding() <= old(fa).outstanding() + 1,
            forall|p: u64| old(fa).allocated_ppn(p) ==> final(fa).allocated_ppn(p),
            final(self).root_table == old(self).root_table,
            final(self).root_ppn == old(self).root_ppn,
            final(self).mapped_pairs == old(self).mapped_pairs,
            final(self).swapped_pages == old(self).swapped_pages,
            final(self).mid_tables@.len() == old(self).mid_tables@.len(),
            forall|i: int|
                0 <= i < old(self).mid_tables@.len()
                    ==> (#[trigger] final(self).mid_tables@[i]).ppn
                        == old(self).mid_tables@[i].ppn,
            forall|w: u64| final(self).pte_of(w) == old(self).pte_of(w),
            forall|w: u64| old(self).path_exists(w) ==> final(self).path_exists(w),
            r matches Ok(li) ==> {
                &&& li < final(self).leaf_tables@.len()
                &&& final(self).mid_tables@[mi as int].entries@[l1 as int].bits != 0
                &&& spec_ppn(final(self).mid_tables@[mi as int].entries@[l1 as int].bits)
                    == final(self).leaf_tables@[li as int].ppn
            },
            r matches Err(e) ==> e == KernelError::OutOfFrames
                && *final(self) == *old(self)
                && old(fa).outstanding() == old(fa).capacity_spec(),
            old(self).mid_tables@[mi as int].entries@[l1 as int].bits != 0 ==> r is Ok
                && *final(self) == *old(self) && *final(fa) == *old(fa),
            old(fa).outstanding() < old(fa).capacity_spec() ==> r is Ok,
    {
        let e1 = self.mid_tables[mi].entry(l1);
        if !e1.is_empty() {
            match find_table(&self.leaf_tables, e1.page_number().0) {
                Some(li) => Ok(li),
                None => {
                    proof {
                        assert(has_table(self.leaf_tables@, spec_ppn(e1.bits)));
                        assert(false);
                    }
                    Err(KernelError::OutOfFrames)
                }
            }
        } else {
            let frame = match fa.allocate() {
                Ok(f) => f,
                Err(e) => {
                    return Err(e);
                }
            };
            let ghost fresh = frame.ppn;
            proof {
                assert(fa.allocated_ppn(fresh));
                assert(fresh < crate::addr::PPN_LIMIT);
                assert(!has_table(self.mid_tables@, fresh)) by {
                    if has_table(self.mid_tables@, fresh) {
                        let i = choose|i: int|
                            0 <= i < self.mid_tables@.len()
                                && self.mid_tables@[i].ppn == fresh;
                        assert(old(fa).allocated_ppn(self.mid_tables@[i].ppn));
                    }
                }
                assert(!has_table(self.leaf_tables@, fresh)) by {
                    if has_table(self.leaf_tables@, fresh) {
                        let i = choose|i: int|
                            0 <= i < self.leaf_tables@.len()
                                && self.leaf_tables@[i].ppn == fresh;
                        assert(old(fa).allocated_ppn(self.leaf_tables@[i].ppn));
                    }
                }
                assert(fresh != self.root_table.ppn);
            }
            let tracker = PageTableTracker::new(frame);
            let link = PageTableEntry::new(Some(PhysicalPageNumber(tracker.ppn)), 0);
            proof {
                crate::pte::lemma_encode_decode(fresh, 1);
            }
            let li = self.leaf_tables.len();
            let ghost pre = *self;
            let ghost mid_ppn = pre.mid_tables@[mi as int].ppn;
            self.mid_tables[mi].set_entry(l1, link);
            self.leaf_tables.push(tracker);
            proof {
                let news = *self;
                let newmid = news.mid_tables@[mi as int];
                assert(news.leaf_tables@ == pre.leaf_tables@.push(tracker));
                assert(news.mid_tables@ == pre.mid_tables@.update(mi as int, newmid));
                assert(newmid.ppn == mid_ppn);
                assert(newmid.entries@
                    == pre.mid_tables@[mi as int].entries@.update(l1 as int, link));
                assert(spec_ppn(link.bits) == fresh && spec_link(link.bits));
                lemma_table_of_update(pre.mid_tables@, mi as int, newmid, 0);
                assert forall|p: u64| #[trigger] has_table(pre.mid_tables@, p)
                    == has_table(news.mid_tables@, p) by {
                    lemma_table_of_update(pre.mid_tables@, mi as int, newmid, p);
                }
                assert forall|p: u64|
                    has_table(pre.mid_tables@, p) && p != mid_ppn
                        implies #[trigger] table_of(news.mid_tables@, p)
                            == table_of(pre.mid_tables@, p) by {
                    lemma_table_of_update(pre.mid_tables@, mi as int, newmid, p);
                }
                assert(table_of(news.mid_tables@, mid_ppn) == newmid);
                lemma_table_of_push(pre.leaf_tables@, tracker, 0);
                assert forall|p: u64| has_table(pre.leaf_tables@, p)
                    implies has_table(news.leaf_tables@, p)
                        && table_of(news.leaf_tables@, p) == table_of(pre.leaf_tables@, p) by {
                    lemma_table_of_push(pre.leaf_tables@, tracker, p);
                }
                assert forall|p: u64| !has_table(pre.leaf_tables@, p) && p != fresh
                    implies !has_table(news.leaf_tables@, p) by {
                    lemma_table_of_push(pre.leaf_tables@, tracker, p);
                }
                assert(table_of(news.leaf_tables@, fresh) == tracker);
                // The tree stays well formed.
                assert forall|i: int| 0 <= i < news.mid_tables@.len() implies
                    (#[trigger] news.mid_tables@[i]).wf()
                        && news.mid_tables@[i].ppn == pre.mid_tables@[i].ppn by {
                    if i != mi {
                        assert(news.mid_tables@[i] == pre.mid_tables@[i]);
                    }
                }
                assert forall|i: int| 0 <= i < news.leaf_tables@.len() implies
                    (#[trigger] news.leaf_tables@[i]).wf() by {
                    if i < pre.leaf_tables@.len() {
                        assert(news.leaf_tables@[i] == pre.leaf_tables@[i]);
                    } else {
                        assert(news.leaf_tables@[i] == tracker);
                    }
                }
                assert forall|i: int, j: int|
                    0 <= i < news.mid_tables@.len() && 0 <= j < news.leaf_tables@.len()
                        implies news.mid_tables@[i].ppn != news.leaf_tables@[j].ppn by {
                    if j < pre.leaf_tables@.len() {
                        assert(news.leaf_tables@[j] == pre.leaf_tables@[j]);
                        assert(pre.mid_tables@[i].ppn != pre.leaf_tables@[j].ppn);
                    } else {
                        assert(news.leaf_tables@[j] == tracker);
                        assert(old(fa).allocated_ppn(pre.mid_tables@[i].ppn));
                    }
                }
                assert forall|j: int| 0 <= j < news.leaf_tables@.len() implies
                    (#[trigger] news.leaf_tables@[j]).ppn != news.root_table.ppn by {
                    if j < pre.leaf_tables@.len() {
                        assert(news.leaf_tables@[j] == pre.leaf_tables@[j]);
                    } else {
                        assert(news.leaf_tables@[j] == tracker);
                    }
                }
                assert forall|s: int|
                    0 <= s < 512 && (#[trigger] news.root_table.entries@[s]).bits != 0
                        implies spec_link(news.root_table.entries@[s].bits)
                            && has_table(
                                news.mid_tables@,
                                spec_ppn(news.root_table.entries@[s].bits),
                            ) by {
                    assert(has_table(
                        pre.mid_tables@,
                        spec_ppn(pre.root_table.entries@[s].bits),
                    ));
                }
                assert forall|i: int, s: int|
                    0 <= i < news.mid_tables@.len() && 0 <= s < 512
                        && (#[trigger] news.mid_tables@[i].entries@[s]).bits != 0
                        implies spec_link(news.mid_tables@[i].entries@[s].bits)
                            && has_table(
                                news.leaf_tables@,
                                spec_ppn(news.mid_tables@[i].entries@[s].bits),
                            ) by {
                    if i == mi && s == l1 {
                        assert(news.mid_tables@[i].entries@[s] == link);
                    } else {
                        if i == mi {
                            assert(news.mid_tables@[i].entries@[s]
                                == pre.mid_tables@[i].entries@[s]);
                        } else {
                            assert(news.mid_tables@[i] == pre.mid_tables@[i]);
                        }
                        assert(has_table(
                            pre.leaf_tables@,
                            spec_ppn(pre.mid_tables@[i].entries@[s].bits),
                        ));
                    }
                }
                assert forall|i: int, s: int, j: int, t: int|
                    0 <= i < news.mid_tables@.len() && 0 <= s < 512
                        && 0 <= j < news.mid_tables@.len() && 0 <= t < 512 && (i, s) != (j, t)
                        && (#[trigger] news.mid_tables@[i].entries@[s]).bits != 0
                        && (#[trigger] news.mid_tables@[j].entries@[t]).bits != 0
                        implies spec_ppn(news.mid_tables@[i].entries@[s].bits)
                            != spec_ppn(news.mid_tables@[j].entries@[t].bits) by {
                    if (i == mi && s == l1) || (j == mi && t == l1) {
                        if i == mi && s == l1 {
                            assert(news.mid_tables@[i].entries@[s] == link);
                            assert(news.mid_tables@[j].entries@[t]
                                == pre.mid_tables@[j].entries@[t]);
                            let p = spec_ppn(pre.mid_tables@[j].entries@[t].bits);
                            assert(has_table(pre.leaf_tables@, p));
                            let x = choose|x: int|
                                0 <= x < pre.leaf_tables@.len()
                                    && pre.leaf_tables@[x].ppn == p;
                            assert(old(fa).allocated_ppn(p));
                        } else {
                            assert(news.mid_tables@[j].entries@[t] == link);
                            assert(news.mid_tables@[i].entries@[s]
                                == pre.mid_tables@[i].entries@[s]);
                            let p = spec_ppn(pre.mid_tables@[i].entries@[s].bits);
                            assert(has_table(pre.leaf_tables@, p));
                            let x = choose|x: int|
                                0 <= x < pre.leaf_tables@.len()
                                    && pre.leaf_tables@[x].ppn == p;
                            assert(old(fa).allocated_ppn(p));
                        }
                    } else {
                        assert(news.mid_tables@[i].entries@[s]
                            == pre.mid_tables@[i].entries@[s]);
                        assert(news.mid_tables@[j].entries@[t]
                            == pre.mid_tables@[j].entries@[t]);
                    }
                }
                // Every page's walk is undisturbed.
                assert forall|w: u64| news.pte_of(w) == pre.pte_of(w)
                    && (pre.path_exists(w) ==> news.path_exists(w)) by {
                    let e2w = pre.root_table.entries@[spec_level2(w)].bits;
                    if e2w != 0 && has_table(pre.mid_tables@, spec_ppn(e2w)) {
                        if spec_ppn(e2w) == mid_ppn {
                            assert(table_of(pre.mid_tables@, spec_ppn(e2w))
                                == pre.mid_tables@[mi as int]) by {
                                lemma_table_of_index(pre.mid_tables@, mi as int);
                            }
                            if spec_level1(w) == l1 {
                                assert(pre.mid_tables@[mi as int].entries@[l1 as int].bits
                                    == 0);
                                assert(pre.pte_of(w) == 0);
                                assert(table_of(news.mid_tables@, spec_ppn(e2w)) == newmid);
                                assert(newmid.entries@[spec_level1(w)].bits == link.bits);
                                assert(table_of(news.leaf_tables@, fresh) == tracker);
                                assert(tracker.entries@[spec_level0(w)].bits == 0);
                                assert(news.pte_of(w) == 0);
                            } else {
                                assert(newmid.entries@[spec_level1(w)]
                                    == pre.mid_tables@[mi as int].entries@[spec_level1(w)]);
                            }
                        } else {
                            assert(table_of(news.mid_tables@, spec_ppn(e2w))
                                == table_of(pre.mid_tables@, spec_ppn(e2w)));
                        }
                    } else if e2w != 0 {
                        assert(!has_table(news.mid_tables@, spec_ppn(e2w)));
                    }
                }
                assert(news.resident() == pre.resident());
                assert(news.swapped() == pre.swapped());
                assert forall|vpn: u64| #[trigger] news.resident().contains_key(vpn) implies {
                    &&& vpn < VPN_LIMIT
                    &&& spec_valid(news.pte_of(vpn))
                    &&& spec_ppn(news.pte_of(vpn)) == news.resident()[vpn].0
                    &&& spec_flags(news.pte_of(vpn)) / 2 > 0
                    &&& news.resident()[vpn].1.len() == PAGE_SIZE
                    &&& !news.swapped().contains_key(vpn)
                } by {
                    assert(pre.resident().contains_key(vpn));
                    assert(news.pte_of(vpn) == pre.pte_of(vpn));
                }
                assert forall|vpn: u64| #[trigger] news.swapped().contains_key(vpn) implies {
                    &&& vpn < VPN_LIMIT
                    &&& news.pte_of(vpn) != 0
                    &&& !spec_valid(news.pte_of(vpn))
                    &&& spec_ppn(news.pte_of(vpn)) == 0
                    &&& news.swapped()[vpn] < SWAP_FILE_CAPACITY
                } by {
                    assert(pre.swapped().contains_key(vpn));
                    assert(news.pte_of(vpn) == pre.pte_of(vpn));
                }
                assert forall|i: int| 0 <= i < news.leaf_tables@.len() implies
                    fa.allocated_ppn((#[trigger] news.leaf_tables@[i]).ppn) by {
                    if i < pre.leaf_tables@.len() {
                        assert(news.leaf_tables@[i] == pre.leaf_tables@[i]);
                        assert(old(fa).allocated_ppn(pre.leaf_tables@[i].ppn));
                    } else {
                        assert(news.leaf_tables@[i] == tracker);
                    }
                }
                assert forall|i: int| 0 <= i < news.mid_tables@.len() implies
                    fa.allocated_ppn((#[trigger] news.mid_tables@[i]).ppn) by {
                    assert(old(fa).allocated_ppn(pre.mid_tables@[i].ppn));
                }
                assert(news.wf());
            }
            Ok(li)
        }
    }

    /// Read the leaf entry of `vpn`.
    fn read_leaf(&self, vpn: VirtualPageNumber) -> (r: PageTableEntry)
        requires
            self.wf_tables(),
            self.path_exists(vpn.0),
            vpn.0 < VPN_LIMIT,
        ensures
            r.bits == self.pte_of(vpn.0),
    {
        let l2 = vpn.level2();
        let l1 = vpn.level1();
        let l0 = vpn.level0();
        let e2 = self.root_table.entry(l2);
        match find_table(&self.mid_tables, e2.page_number().0) {
            Some(mi) => {
                proof {
                    lemma_table_of_index(self.mid_tables@, mi as int);
                }
                let e1 = self.mid_tables[mi].entry(l1);
                match find_table(&self.leaf_tables, e1.page_number().0) {
                    Some(li) => {
                        proof {
                            lemma_table_of_index(self.leaf_tables@, li as int);
                        }
                        self.leaf_tables[li].entry(l0)
                    }
                    None => {
                        proof {
                            assert(false);
                        }
                        PageTableEntry::empty()
                    }
                }
            }
            None => {
                proof {
                    assert(false);
                }
                PageTableEntry::empty()
            }
        }
    }

    /// Overwrite the leaf entry of `vpn`, leaving every other page's walk
    /// untouched.
    fn set_leaf(&mut self, vpn: VirtualPageNumber, pte: PageTableEntry)
        requires
            old(self).wf_tables(),
            old(self).path_exists(vpn.0),
            vpn.0 < VPN_LIMIT,
        ensures
            final(self).wf_tables(),
            final(self).root_table == old(self).root_table,
            final(self).root_ppn == old(self).root_ppn,
            final(self).mid_tables@ == old(self).mid_tables@,
            final(self).mapped_pairs == old(self).mapped_pairs,
            final(self).swapped_pages == old(self).swapped_pages,
            final(self).leaf_tables@.len() == old(self).leaf_tables@.len(),
            forall|i: int|
                0 <= i < old(self).leaf_tables@.len()
                    ==> (#[trigger] final(self).leaf_tables@[i]).ppn
                        == old(self).leaf_tables@[i].ppn,
            forall|w: u64| final(self).path_exists(w) == old(self).path_exists(w),
            final(self).pte_of(vpn.0) == pte.bits,
            forall|w: u64|
                w < VPN_LIMIT && w != vpn.0
                    ==> final(self).pte_of(w) == old(self).pte_of(w),
    {
        let l2 = vpn.level2();
        let l1 = vpn.level1();
        let l0 = vpn.level0();
        let e2 = self.root_table.entry(l2);
        let mi = match find_table(&self.mid_tables, e2.page_number().0) {
            Some(mi) => mi,
            None => {
                proof {
                    assert(false);
                }
                0
            }
        };
        proof {
            lemma_table_of_index(self.mid_tables@, mi as int);
        }
        let e1 = self.mid_tables[mi].entry(l1);
        let li = match find_table(&self.leaf_tables, e1.page_number().0) {
            Some(li) => li,
            None => {
                proof {
                    assert(false);
                }
                0
            }
        };
        proof {
            lemma_table_of_index(self.leaf_tables@, li as int);
        }
        let ghost pre = *self;
        let ghost leaf_ppn = pre.leaf_tables@[li as int].ppn;
        self.leaf_tables[li].set_entry(l0, pte);
        proof {
            let news = *self;
            let newleaf = news.leaf_tables@[li as int];
            assert(news.leaf_tables@ == pre.leaf_tables@.update(li as int, newleaf));
            assert(newleaf.ppn == leaf_ppn);
            assert(newleaf.entries@
                == pre.leaf_tables@[li as int].entries@.update(l0 as int, pte));
            lemma_table_of_update(pre.leaf_tables@, li as int, newleaf, 0);
            assert forall|p: u64| #[trigger] has_table(pre.leaf_tables@, p)
                == has_table(news.leaf_tables@, p) by {
                lemma_table_of_update(pre.leaf_tables@, li as int, newleaf, p);
            }
            assert forall|p: u64|
                has_table(pre.leaf_tables@, p) && p != leaf_ppn
                    implies #[trigger] table_of(news.leaf_tables@, p)
                        == table_of(pre.leaf_tables@, p) by {
                lemma_table_of_update(pre.leaf_tables@, li as int, newleaf, p);
            }
            assert(table_of(news.leaf_tables@, leaf_ppn) == newleaf);
            assert forall|i: int| 0 <= i < news.leaf_tables@.len() implies
                (#[trigger] news.leaf_tables@[i]).wf()
                    && news.leaf_tables@[i].ppn == pre.leaf_tables@[i].ppn by {
                if i != li {
                    assert(news.leaf_tables@[i] == pre.leaf_tables@[i]);
                }
            }
            assert forall|s: int|
                0 <= s < 512 && (#[trigger] news.root_table.entries@[s]).bits != 0
                    implies spec_link(news.root_table.entries@[s].bits)
                        && has_table(
                            news.mid_tables@,
                            spec_ppn(news.root_table.entries@[s].bits),
                        ) by {}
            assert forall|i: int, s: int|
                0 <= i < news.mid_tables@.len() && 0 <= s < 512
                    && (#[trigger] news.mid_tables@[i].entries@[s]).bits != 0
                    implies spec_link(news.mid_tables@[i].entries@[s].bits)
                        && has_table(
                            news.leaf_tables@,
                            spec_ppn(news.mid_tables@[i].entries@[s].bits),
                        ) by {
                assert(has_table(
                    pre.leaf_tables@,
                    spec_ppn(pre.mid_tables@[i].entries@[s].bits),
                ));
            }
            assert(news.wf_tables());
            assert forall|w: u64| news.path_exists(w) == pre.path_exists(w) by {}
            // The written page's walk now reads the new entry.
            assert(news.pte_of(vpn.0) == pte.bits) by {
                assert(table_of(news.mid_tables@, spec_ppn(e2.bits))
                    == news.mid_tables@[mi as int]) by {
                    lemma_table_of_index(news.mid_tables@, mi as int);
                }
                assert(table_of(news.leaf_tables@, spec_ppn(e1.bits)) == newleaf);
                assert(newleaf.entries@[spec_level0(vpn.0)] == pte);
            }
            // No other page's walk changed.
            assert forall|w: u64| w < VPN_LIMIT && w != vpn.0 implies
                news.pte_of(w) == pre.pte_of(w) by {
                let e2w = pre.root_table.entries@[spec_level2(w)].bits;
                if e2w != 0 && has_table(pre.mid_tables@, spec_ppn(e2w)) {
                    let midw = table_of(pre.mid_tables@, spec_ppn(e2w));
                    let e1w = midw.entries@[spec_level1(w)].bits;
                    if e1w != 0 && has_table(pre.leaf_tables@, spec_ppn(e1w)) {
                        if spec_ppn(e1w) == leaf_ppn {
                            if spec_level0(w) == spec_level0(vpn.0) {
                                assert(table_of(pre.leaf_tables@, spec_ppn(e1w))
                                    == pre.leaf_tables@[li as int]) by {
                                    lemma_table_of_index(pre.leaf_tables@, li as int);
                                }
                                pre.lemma_walk_injective(w, vpn.0);
                                assert(false);
                            } else {
                                assert(table_of(news.leaf_tables@, spec_ppn(e1w))
                                    == newleaf);
                                assert(newleaf.entries@[spec_level0(w)]
                                    == pre.leaf_tables@[li as int].entries@[spec_level0(w)]);
                                assert(table_of(pre.leaf_tables@, spec_ppn(e1w))
                                    == pre.leaf_tables@[li as int]) by {
                                    lemma_table_of_index(pre.leaf_tables@, li as int);
                                }
                            }
                        } else {
                            assert(table_of(news.leaf_tables@, spec_ppn(e1w))
                                == table_of(pre.leaf_tables@, spec_ppn(e1w)));
                        }
                    }
                }
            }
        }
    }

    /// Walk to the leaf entry of `vpn`, creating missing intermediate tables
    /// on the way, and return it.  Fails only when a table had to be created
    /// and no frame was free.
    pub fn find_entry(
        &mut self,
        fa: &mut FrameAllocator,
        vpn: VirtualPageNumber,
    ) -> (r: Result<PageTableEntry, KernelError>)
        requires
            old(self).wf(),
            old(fa).inv(),
            old(self).owned_by(*old(fa)),
            vpn.0 < VPN_LIMIT,
        ensures
            final(self).wf(),
            final(fa).inv(),
            final(self).owned_by(*final(fa)),
            final(fa).base_ppn == old(fa).base_ppn,
            final(fa).capacity_spec() == old(fa).capacity_spec(),
            old(fa).outstanding() <= final(fa).outstanding() <= old(fa).outstanding() + 2,
            forall|p: u64| old(fa).allocated_ppn(p) ==> final(fa).allocated_ppn(p),
            final(self).root_ppn == old(self).root_ppn,
            final(self).mapped_pairs == old(self).mapped_pairs,
            final(self).swapped_pages == old(self).swapped_pages,
            forall|w: u64| final(self).pte_of(w) == old(self).pte_of(w),
            forall|w: u64| old(self).path_exists(w) ==> final(self).path_exists(w),
            r matches Ok(e) ==> final(self).path_exists(vpn.0)
                && e.bits == final(self).pte_of(vpn.0),
            r matches Err(e) ==> e == KernelError::OutOfFrames
                && final(fa).outstanding() == final(fa).capacity_spec(),
            old(self).path_exists(vpn.0) ==> r is Ok
                && *final(self) == *old(self) && *final(fa) == *old(fa),
            old(fa).outstanding() + 2 <= old(fa).capacity_spec() ==> r is Ok,
    {
        let l2 = vpn.level2();
        let l1 = vpn.level1();
        let l0 = vpn.level0();
        proof {
            if old(self).path_exists(vpn.0) {
                assert(old(self).root_table.entries@[l2 as int].bits != 0);
            }
        }
        let mi = match self.ensure_mid(fa, l2) {
            Ok(mi) => mi,
            Err(e) => {
                return Err(e);
            }
        };
        let ghost after_mid = *self;
        proof {
            if old(self).path_exists(vpn.0) {
                assert(table_of(after_mid.mid_tables@, spec_ppn(
                    after_mid.root_table.entries@[l2 as int].bits))
                    .entries@[l1 as int].bits != 0) by {
                    assert(after_mid.path_exists(vpn.0));
                }
                lemma_table_of_index(after_mid.mid_tables@, mi as int);
            }
        }
        let li = match self.ensure_leaf(fa, mi, l1) {
            Ok(li) => li,
            Err(e) => {
                return Err(e);
            }
        };
        proof {
            let news = *self;
            assert(news.root_table == after_mid.root_table);
            assert(news.root_table.entries@[l2 as int].bits != 0);
            assert(spec_ppn(news.root_table.entries@[l2 as int].bits)
                == news.mid_tables@[mi as int].ppn);
            lemma_table_of_index(news.mid_tables@, mi as int);
            lemma_table_of_index(news.leaf_tables@, li as int);
            assert(news.path_exists(vpn.0));
        }
        Ok(self.read_leaf(vpn))
    }

    /// Write a fresh leaf mapping for `vpn`: with a physical page the entry
    /// becomes valid, without one it takes the swapped-out shape.  The page
    /// must not be mapped yet.
    fn map_one(
        &mut self,
        fa: &mut FrameAllocator,
        vpn: VirtualPageNumber,
        ppn: Option<PhysicalPageNumber>,
        flags: u64,
    ) -> (r: Result<(), KernelError>)
        requires
            old(self).wf(),
            old(fa).inv(),
            old(self).owned_by(*old(fa)),
            vpn.0 < VPN_LIMIT,
            old(self).pte_of(vpn.0) == 0,
            flags < 1024,
            flags % 2 == 0,
            flags / 2 > 0,
            ppn matches Some(p) ==> p.0 < crate::addr::PPN_LIMIT,
        ensures
            final(self).wf(),
            final(fa).inv(),
            final(self).owned_by(*final(fa)),
            final(fa).base_ppn == old(fa).base_ppn,
            final(fa).capacity_spec() == old(fa).capacity_spec(),
            old(fa).outstanding() <= final(fa).outstanding() <= old(fa).outstanding() + 2,
            forall|p: u64| old(fa).allocated_ppn(p) ==> final(fa).allocated_ppn(p),
            final(self).root_ppn == old(self).root_ppn,
            final(self).mapped_pairs == old(self).mapped_pairs,
            final(self).swapped_pages == old(self).swapped_pages,
            forall|w: u64|
                w < VPN_LIMIT && w != vpn.0
                    ==> final(self).pte_of(w) == old(self).pte_of(w),
            r is Ok ==> {
                &&& (ppn matches Some(p)
                        ==> final(self).pte_of(vpn.0) == p.0 * 1024 + flags + 1)
                &&& (ppn is None ==> final(self).pte_of(vpn.0) == flags)
            },
            r matches Err(e) ==> e == KernelError::OutOfFrames
                && final(fa).outstanding() == final(fa).capacity_spec()
                && final(self).pte_of(vpn.0) == 0,
            old(fa).outstanding() + 2 <= old(fa).capacity_spec() ==> r is Ok,
    {
        match self.find_entry(fa, vpn) {
            Ok(_) => {}
            Err(e) => {
                return Err(e);
            }
        }
        let pte = PageTableEntry::new(ppn, flags);
        let ghost pre = *self;
        self.set_leaf(vpn, pte);
        proof {
            let news = *self;
            assert(news.resident() == pre.resident());
            assert(news.swapped() == pre.swapped());
            assert forall|w: u64| #[trigger] news.resident().contains_key(w) implies {
                &&& w < VPN_LIMIT
                &&& spec_valid(news.pte_of(w))
                &&& spec_ppn(news.pte_of(w)) == news.resident()[w].0
                &&& spec_flags(news.pte_of(w)) / 2 > 0
                &&& news.resident()[w].1.len() == PAGE_SIZE
                &&& !news.swapped().contains_key(w)
            } by {
                assert(pre.resident().contains_key(w));
                assert(w != vpn.0);
                assert(news.pte_of(w) == pre.pte_of(w));
            }
            assert forall|w: u64| #[trigger] news.swapped().contains_key(w) implies {
                &&& w < VPN_LIMIT
                &&& news.pte_of(w) != 0
                &&& !spec_valid(news.pte_of(w))
                &&& spec_ppn(news.pte_of(w)) == 0
                &&& news.swapped()[w] < SWAP_FILE_CAPACITY
            } by {
                assert(pre.swapped().contains_key(w));
                assert(w != vpn.0);
                assert(news.pte_of(w) == pre.pte_of(w));
            }
        }
        Ok(())
    }

    /// Take the valid leaf mapping of `vpn` out of service: keep its flags,
    /// clear the valid bit and the page number (a swap-out).  The page must
    /// already be out of the resident and swapped books.
    fn invalidate_one(&mut self, vpn: VirtualPageNumber)
        requires
            old(self).wf(),
            vpn.0 < VPN_LIMIT,
            spec_valid(old(self).pte_of(vpn.0)),
            !old(self).resident().contains_key(vpn.0),
            !old(self).swapped().contains_key(vpn.0),
        ensures
            final(self).wf(),
            final(self).root_ppn == old(self).root_ppn,
            final(self).mapped_pairs == old(self).mapped_pairs,
            final(self).swapped_pages == old(self).swapped_pages,
            final(self).root_table == old(self).root_table,
            final(self).mid_tables@ == old(self).mid_tables@,
            final(self).leaf_tables@.len() == old(self).leaf_tables@.len(),
            forall|i: int|
                0 <= i < old(self).leaf_tables@.len()
                    ==> (#[trigger] final(self).leaf_tables@[i]).ppn
                        == old(self).leaf_tables@[i].ppn,
            forall|w: u64|
                w < VPN_LIMIT && w != vpn.0
                    ==> final(self).pte_of(w) == old(self).pte_of(w),
            final(self).pte_of(vpn.0) == (spec_flags(old(self).pte_of(vpn.0)) / 2) * 2,
            forall|fa: FrameAllocator|
                old(self).owned_by(fa) ==> final(self).owned_by(fa),
    {
        let mut e = self.read_leaf(vpn);
        e.update_page_number(None);
        let ghost pre = *self;
        self.set_leaf(vpn, e);
        proof {
            let news = *self;
            assert forall|w: u64| #[trigger] news.resident().contains_key(w) implies {
                &&& w < VPN_LIMIT
                &&& spec_valid(news.pte_of(w))
                &&& spec_ppn(news.pte_of(w)) == news.resident()[w].0
                &&& spec_flags(news.pte_of(w)) / 2 > 0
                &&& news.resident()[w].1.len() == PAGE_SIZE
                &&& !news.swapped().contains_key(w)
            } by {
                assert(w != vpn.0);
                assert(news.pte_of(w) == pre.pte_of(w));
            }
            assert forall|w: u64| #[trigger] news.swapped().contains_key(w) implies {
                &&& w < VPN_LIMIT
                &&& news.pte_of(w) != 0
                &&& !spec_valid(news.pte_of(w))
                &&& spec_ppn(news.pte_of(w)) == 0
                &&& news.swapped()[w] < SWAP_FILE_CAPACITY
            } by {
                assert(w != vpn.0);
                assert(news.pte_of(w) == pre.pte_of(w));
            }
        }
    }

    /// Point the swapped-out leaf mapping of `vpn` at a physical page again:
    /// restore the valid bit and set the page number.  The page must be out
    /// of the resident and swapped books.
    fn remap_one(&mut self, vpn: VirtualPageNumber, ppn: PhysicalPageNumber)
        requires
            old(self).wf(),
            vpn.0 < VPN_LIMIT,
            ppn.0 < crate::addr::PPN_LIMIT,
            old(self).pte_of(vpn.0) != 0,
            !spec_valid(old(self).pte_of(vpn.0)),
            !old(self).resident().contains_key(vpn.0),
            !old(self).swapped().contains_key(vpn.0),
        ensures
            final(self).wf(),
            final(self).root_ppn == old(self).root_ppn,
            final(self).mapped_pairs == old(self).mapped_pairs,
            final(self).swapped_pages == old(self).swapped_pages,
            final(self).root_table == old(self).root_table,
            final(self).mid_tables@ == old(self).mid_tables@,
            final(self).leaf_tables@.len() == old(self).leaf_tables@.len(),
            forall|i: int|
                0 <= i < old(self).leaf_tables@.len()
                    ==> (#[trigger] final(self).leaf_tables@[i]).ppn
                        == old(self).leaf_tables@[i].ppn,
            forall|w: u64|
                w < VPN_LIMIT && w != vpn.0
                    ==> final(self).pte_of(w) == old(self).pte_of(w),
            final(self).pte_of(vpn.0)
                == ppn.0 * 1024 + spec_flags(old(self).pte_of(vpn.0)) + 1,
            spec_valid(final(self).pte_of(vpn.0)),
            spec_ppn(final(self).pte_of(vpn.0)) == ppn.0,
            spec_flags(final(self).pte_of(vpn.0))
                == spec_flags(old(self).pte_of(vpn.0)) + 1,
            forall|fa: FrameAllocator|
                old(self).owned_by(fa) ==> final(self).owned_by(fa),
    {
        let mut e = self.read_leaf(vpn);
        proof {
            assert(spec_flags(e.bits) % 2 == 0);
        }
        e.update_page_number(Some(ppn));
        let ghost pre = *self;
        self.set_leaf(vpn, e);
        proof {
            let news = *self;
            assert forall|w: u64| #[trigger] news.resident().contains_key(w) implies {
                &&& w < VPN_LIMIT
                &&& spec_valid(news.pte_of(w))
                &&& spec_ppn(news.pte_of(w)) == news.resident()[w].0
                &&& spec_flags(news.pte_of(w)) / 2 > 0
                &&& news.resident()[w].1.len() == PAGE_SIZE
                &&& !news.swapped().contains_key(w)
            } by {
                assert(w != vpn.0);
                assert(news.pte_of(w) == pre.pte_of(w));
            }
            assert forall|w: u64| #[trigger] news.swapped().contains_key(w) implies {
                &&& w < VPN_LIMIT
                &&& news.pte_of(w) != 0
                &&& !spec_valid(news.pte_of(w))
                &&& spec_ppn(news.pte_of(w)) == 0
                &&& news.swapped()[w] < SWAP_FILE_CAPACITY
            } by {
                assert(w != vpn.0);
                assert(news.pte_of(w) == pre.pte_of(w));
            }
        }
    }

    /// Establish every page of a segment.  A `Linear` page maps to itself
    /// shifted by the kernel offset.  A `Framed` page receives its slice of
    /// the initialization data (zero-filled outside it); pages fit into
    /// frames while the quota allows and go to the swap store after.  On
    /// failure the mapping is left consistent but partial; the caller
    /// discards it.
    #[verifier::loop_isolation(false)]
    #[verifier::rlimit(100)]
    pub fn map(
        &mut self,
        fa: &mut FrameAllocator,
        store: &mut SwapStore,
        segment: &Segment,
        init_data: Option<&Vec<u8>>,
    ) -> (r: Result<(), KernelError>)
        requires
            old(self).wf(),
            old(fa).inv(),
            old(store).inv(),
            old(self).owned_by(*old(fa)),
            old(self).consistent_with(*old(store)),
            segment.wf(),
            forall|w: u64|
                spec_start_vpn(*segment) <= w < spec_end_vpn(*segment)
                    ==> old(self).pte_of(w) == 0,
            data_view(init_data) matches Some(d)
                ==> d.len() == 0 || d.len() == segment.range.spec_len(),
        ensures
            final(self).wf(),
            final(fa).inv(),
            final(store).inv(),
            final(self).owned_by(*final(fa)),
            final(self).consistent_with(*final(store)),
            final(fa).base_ppn == old(fa).base_ppn,
            final(fa).capacity_spec() == old(fa).capacity_spec(),
            forall|p: u64| old(fa).allocated_ppn(p) ==> final(fa).allocated_ppn(p),
            final(self).root_ppn == old(self).root_ppn,
            final(self).quota() == old(self).quota(),
            forall|i: usize|
                old(store).slot_allocated(i)
                    ==> final(store).slot_allocated(i)
                        && final(store).page_at(i as int) == old(store).page_at(i as int),
            forall|w: u64|
                w < VPN_LIMIT && !(spec_start_vpn(*segment) <= w < spec_end_vpn(*segment))
                    ==> final(self).pte_of(w) == old(self).pte_of(w),
            forall|w: u64|
                !(spec_start_vpn(*segment) <= w < spec_end_vpn(*segment)) ==> {
                    &&& final(self).resident().contains_key(w)
                        == old(self).resident().contains_key(w)
                    &&& (old(self).resident().contains_key(w)
                        ==> final(self).resident()[w] == old(self).resident()[w])
                    &&& final(self).swapped().contains_key(w)
                        == old(self).swapped().contains_key(w)
                    &&& (old(self).swapped().contains_key(w)
                        ==> final(self).swapped()[w] == old(self).swapped()[w])
                },
            r is Ok && segment.map_type == MapType::Framed ==> {
                let free = old(self).quota() - old(self).resident().dom().len();
                forall|w: u64|
                    spec_start_vpn(*segment) <= w < spec_end_vpn(*segment) ==> {
                        &&& #[trigger] final(self).framed_mapped(w)
                        &&& final(self).page_bytes(*final(store), w)
                            == spec_init_page(*segment, data_view(init_data), w as int)
                        &&& (w - spec_start_vpn(*segment) < free
                            ==> final(self).resident().contains_key(w))
                        &&& (w - spec_start_vpn(*segment) >= free
                            ==> final(self).swapped().contains_key(w))
                        &&& (final(self).resident().contains_key(w)
                            ==> final(self).pte_of(w)
                                == final(self).resident()[w].0 * 1024 + segment.flags + 1)
                        &&& (final(self).swapped().contains_key(w)
                            ==> final(self).pte_of(w) == segment.flags)
                    }
            },
            // The eviction order grows by the newly resident pages, lowest
            // page first.
            r is Ok && segment.map_type == MapType::Framed ==> {
                let free = old(self).quota() - old(self).resident().dom().len();
                let pages = spec_end_vpn(*segment) - spec_start_vpn(*segment);
                final(self).mapped_pairs.order()
                    == old(self).mapped_pairs.order() + Seq::new(
                        (if pages <= free { pages } else { free }) as nat,
                        |j: int| (spec_start_vpn(*segment) + j) as u64)
            },
            // Failure comes only from true exhaustion, and the attempt
            // consumes no more than the segment could need.
            (r matches Err(e) && e == KernelError::OutOfFrames)
                ==> final(fa).outstanding() == final(fa).capacity_spec(),
            (r matches Err(e) && e == KernelError::OutOfSwapSlots)
                ==> final(store).outstanding() == SWAP_FILE_CAPACITY,
            final(fa).outstanding() <= old(fa).outstanding()
                + 3 * (spec_end_vpn(*segment) - spec_start_vpn(*segment)),
            final(store).outstanding() <= old(store).outstanding()
                + (spec_end_vpn(*segment) - spec_start_vpn(*segment)),
            r is Ok && segment.map_type == MapType::Linear ==> {
                &&& forall|w: u64|
                        spec_start_vpn(*segment) <= w < spec_end_vpn(*segment)
                            ==> final(self).pte_of(w)
                                == (w - KERNEL_LINEAR_OFFSET_PAGES) * 1024 + segment.flags + 1
                &&& final(self).resident() == old(self).resident()
                &&& final(self).swapped() == old(self).swapped()
            },
            r matches Err(e)
                ==> (e == KernelError::OutOfFrames || e == KernelError::OutOfSwapSlots),
            (old(fa).outstanding() + 3 * (spec_end_vpn(*segment) - spec_start_vpn(*segment))
                <= old(fa).capacity_spec())
                && (old(store).outstanding()
                    + (spec_end_vpn(*segment) - spec_start_vpn(*segment))
                    <= SWAP_FILE_CAPACITY) ==> r is Ok,
    {
        let (svpn, evpn) = segment.page_range();
        let ghost free = old(self).quota() - old(self).resident().dom().len();
        let mut vpn: u64 = svpn.0;
        match segment.map_type {
            MapType::Linear => {
                while vpn < evpn.0
                    invariant
                        self.wf(),
                        fa.inv(),
                        store.inv(),
                        *store == *old(store),
                        self.consistent_with(*store),
                        self.owned_by(*fa),
                        segment.wf(),
                        segment.map_type == MapType::Linear,
                        svpn.0 == spec_start_vpn(*segment),
                        evpn.0 == spec_end_vpn(*segment),
                        svpn.0 <= vpn <= evpn.0,
                        evpn.0 <= VPN_LIMIT,
                        fa.base_ppn == old(fa).base_ppn,
                        fa.capacity_spec() == old(fa).capacity_spec(),
                        fa.outstanding() <= old(fa).outstanding() + 2 * (vpn - svpn.0),
                        forall|p: u64| old(fa).allocated_ppn(p) ==> fa.allocated_ppn(p),
                        self.root_ppn == old(self).root_ppn,
                        self.mapped_pairs == old(self).mapped_pairs,
                        self.swapped_pages == old(self).swapped_pages,
                        forall|w: u64|
                            w < VPN_LIMIT && !(svpn.0 <= w < vpn)
                                ==> self.pte_of(w) == old(self).pte_of(w),
                        forall|w: u64|
                            svpn.0 <= w < vpn
                                ==> #[trigger] self.pte_of(w)
                                    == (w - KERNEL_LINEAR_OFFSET_PAGES) * 1024
                                        + segment.flags + 1,
                    decreases evpn.0 - vpn,
                {
                    let page = VirtualPageNumber(vpn);
                    let ghost iter_pre = *self;
                    match self.map_one(fa, page, Some(page.linear_ppn()), segment.flags) {
                        Ok(_) => {
                            proof {
                                lemma_consistent_same_swapped(iter_pre, *self, *store);
                            }
                        }
                        Err(e) => {
                            proof {
                                lemma_consistent_same_swapped(iter_pre, *self, *store);
                            }
                            return Err(e);
                        }
                    }
                    vpn = vpn + 1;
                }
                Ok(())
            }
            MapType::Framed => {
                while vpn < evpn.0
                    invariant
                        self.wf(),
                        fa.inv(),
                        store.inv(),
                        self.owned_by(*fa),
                        self.consistent_with(*store),
                        segment.wf(),
                        segment.map_type == MapType::Framed,
                        svpn.0 == spec_start_vpn(*segment),
                        evpn.0 == spec_end_vpn(*segment),
                        svpn.0 <= vpn <= evpn.0,
                        evpn.0 <= VPN_LIMIT,
                        free == old(self).quota() - old(self).resident().dom().len(),
                        data_view(init_data) matches Some(d)
                            ==> d.len() == 0 || d.len() == segment.range.spec_len(),
                        fa.base_ppn == old(fa).base_ppn,
                        fa.capacity_spec() == old(fa).capacity_spec(),
                        fa.outstanding() <= old(fa).outstanding() + 3 * (vpn - svpn.0),
                        forall|p: u64| old(fa).allocated_ppn(p) ==> fa.allocated_ppn(p),
                        store.outstanding() <= old(store).outstanding() + (vpn - svpn.0),
                        forall|i: usize|
                            old(store).slot_allocated(i)
                                ==> store.slot_allocated(i)
                                    && store.page_at(i as int) == old(store).page_at(i as int),
                        self.root_ppn == old(self).root_ppn,
                        self.quota() == old(self).quota(),
                        forall|w: u64|
                            w < VPN_LIMIT && !(svpn.0 <= w < vpn)
                                ==> self.pte_of(w) == old(self).pte_of(w),
                        forall|w: u64|
                            !(svpn.0 <= w < vpn) ==> {
                                &&& self.resident().contains_key(w)
                                    == old(self).resident().contains_key(w)
                                &&& (old(self).resident().contains_key(w)
                                    ==> self.resident()[w] == old(self).resident()[w])
                                &&& self.swapped().contains_key(w)
                                    == old(self).swapped().contains_key(w)
                                &&& (old(self).swapped().contains_key(w)
                                    ==> self.swapped()[w] == old(self).swapped()[w])
                            },
                        self.resident().dom().len()
                            == old(self).resident().dom().len()
                                + (if vpn - svpn.0 <= free { vpn - svpn.0 } else { free }),
                        forall|w: u64|
                            svpn.0 <= w < vpn ==> #[trigger] self.framed_mapped(w),
                        forall|w: u64|
                            svpn.0 <= w < vpn && #[trigger] self.resident().contains_key(w)
                                ==> self.resident()[w].1
                                    == spec_init_page(
                                        *segment, data_view(init_data), w as int),
                        forall|w: u64|
                            svpn.0 <= w < vpn && #[trigger] self.resident().contains_key(w)
                                ==> self.pte_of(w)
                                    == self.resident()[w].0 * 1024 + segment.flags + 1,
                        forall|w: u64|
                            svpn.0 <= w < vpn && #[trigger] self.swapped().contains_key(w)
                                ==> self.pte_of(w) == segment.flags,
                        self.mapped_pairs.order()
                            == old(self).mapped_pairs.order() + Seq::new(
                                (if vpn - svpn.0 <= free { vpn - svpn.0 } else { free }) as nat,
                                |j: int| (svpn.0 + j) as u64),
                        forall|w: u64|
                            svpn.0 <= w < vpn && #[trigger] self.swapped().contains_key(w)
                                ==> store.page_at(self.swapped()[w] as int)
                                    == spec_init_page(
                                        *segment, data_view(init_data), w as int),
                        forall|w: u64|
                            svpn.0 <= w < vpn && w - svpn.0 < free
                                ==> #[trigger] self.resident().contains_key(w),
                        forall|w: u64|
                            svpn.0 <= w < vpn && w - svpn.0 >= free
                                ==> #[trigger] self.swapped().contains_key(w),
                    decreases evpn.0 - vpn,
                {
                    let page = VirtualPageNumber(vpn);
                    let page_data: Vec<u8> = match init_data {
                        Some(d) => {
                            if d.len() > 0 {
                                build_page_data(segment, d, page)
                            } else {
                                zero_page()
                            }
                        }
                        None => zero_page(),
                    };
                    proof {
                        assert(page_data@
                            =~= spec_init_page(*segment, data_view(init_data), vpn as int));
                        assert(self.pte_of(vpn) == 0);
                        assert(!self.resident().contains_key(vpn));
                        assert(!self.swapped().contains_key(vpn));
                    }
                    let ghost iter_pre = *self;
                    let ghost store_pre = *store;
                    let ghost fa_pre = *fa;
                    if !self.mapped_pairs.full() {
                        let mut frame = match fa.allocate() {
                            Ok(f) => f,
                            Err(e) => {
                                proof {
                                    lemma_owned_same_allocated(*self, fa_pre, *fa);
                                }
                                return Err(e);
                            }
                        };
                        proof {
                            lemma_owned_same_allocated(*self, fa_pre, *fa);
                        }
                        match self.map_one(
                            fa, page, Some(PhysicalPageNumber(frame.ppn)), segment.flags) {
                            Ok(_) => {}
                            Err(e) => {
                                proof {
                                    lemma_consistent_same_swapped(iter_pre, *self, *store);
                                }
                                return Err(e);
                            }
                        }
                        frame.data = page_data;
                        self.mapped_pairs.push(vpn, frame);
                        proof {
                            lemma_consistent_same_swapped(iter_pre, *self, *store);
                            crate::pte::lemma_encode_decode(
                                frame.ppn, (segment.flags + 1) as u64);
                            assert(self.mapped_pairs.order()
                                =~= old(self).mapped_pairs.order() + Seq::new(
                                    (vpn + 1 - svpn.0) as nat,
                                    |j: int| (svpn.0 + j) as u64));
                            assert(self.resident()
                                == iter_pre.resident().insert(
                                    vpn, (frame.ppn, frame.data@)));
                            assert(self.resident().dom()
                                =~= iter_pre.resident().dom().insert(vpn));
                            assert(vpn - svpn.0 < free);
                            assert forall|w: u64|
                                svpn.0 <= w < vpn + 1 implies {
                                    &&& #[trigger] self.framed_mapped(w)
                                    &&& self.page_bytes(*store, w)
                                        == spec_init_page(
                                            *segment, data_view(init_data), w as int)
                                    &&& (w - svpn.0 < free
                                        ==> self.resident().contains_key(w))
                                    &&& (w - svpn.0 >= free
                                        ==> self.swapped().contains_key(w))
                                } by {
                                if w < vpn {
                                    assert(iter_pre.framed_mapped(w));
                                    assert(iter_pre.page_bytes(store_pre, w)
                                        == spec_init_page(
                                            *segment, data_view(init_data), w as int));
                                    if iter_pre.resident().contains_key(w) {
                                        assert(self.resident().contains_key(w));
                                        assert(self.resident()[w]
                                            == iter_pre.resident()[w]);
                                    } else {
                                        assert(iter_pre.swapped().contains_key(w));
                                        assert(!self.resident().contains_key(w));
                                        assert(self.swapped()[w] == iter_pre.swapped()[w]);
                                    }
                                    assert(self.page_bytes(*store, w)
                                        == iter_pre.page_bytes(store_pre, w));
                                } else {
                                    assert(self.resident().contains_key(w));
                                    assert(self.page_bytes(*store, w) == frame.data@);
                                }
                            }
                            assert(self.resident().dom().len()
                                == old(self).resident().dom().len()
                                    + (if vpn + 1 - svpn.0 <= free {
                                        vpn + 1 - svpn.0
                                    } else {
                                        free
                                    }));
                        }
                    } else {
                        let tracker = match SwapTracker::new(store) {
                            Ok(t) => t,
                            Err(e) => {
                                proof {
                                    lemma_consistent_same_swapped(iter_pre, *self, *store);
                                }
                                return Err(e);
                            }
                        };
                        let ghost slot = tracker.index;
                        let ghost store_mid = *store;
                        proof {
                            assert forall|w: u64| #[trigger] iter_pre.swapped().contains_key(w)
                                implies iter_pre.swapped()[w] != slot by {
                                assert(store_pre.slot_allocated(iter_pre.swapped()[w]));
                            }
                        }
                        match self.map_one(fa, page, None, segment.flags) {
                            Ok(_) => {}
                            Err(e) => {
                                tracker.release(store);
                                proof {
                                    assert forall|w: u64|
                                        #[trigger] self.swapped().contains_key(w)
                                            implies store.slot_allocated(self.swapped()[w])
                                                && store.written(self.swapped()[w] as int) by {
                                        assert(iter_pre.swapped().contains_key(w));
                                        assert(store_pre.slot_allocated(iter_pre.swapped()[w]));
                                        assert(store_pre.written(iter_pre.swapped()[w] as int));
                                        assert(iter_pre.swapped()[w] != slot);
                                    }
                                }
                                return Err(e);
                            }
                        }
                        tracker.write(store, &page_data);
                        swap_map_insert(&mut self.swapped_pages, vpn, tracker);
                        proof {
                            assert(self.swapped()
                                == iter_pre.swapped().insert(vpn, slot));
                            assert forall|w: u64| #[trigger] self.swapped().contains_key(w)
                                implies store.slot_allocated(self.swapped()[w])
                                    && store.written(self.swapped()[w] as int) by {
                                if w != vpn {
                                    let j = iter_pre.swapped()[w];
                                    assert(iter_pre.swapped().contains_key(w));
                                    assert(store_pre.slot_allocated(j));
                                    assert(store_pre.written(j as int));
                                    assert(j != slot);
                                    assert(self.swapped()[w] == j);
                                    assert(j < SWAP_FILE_CAPACITY);
                                    assert(store_mid.slot_allocated(j));
                                    assert(store_mid.page_at(j as int)
                                        == store_pre.page_at(j as int));
                                    assert(store.allocator == store_mid.allocator);
                                    assert(store.slot_allocated(j));
                                    assert(store.page_at(j as int)
                                        == store_mid.page_at(j as int));
                                    assert(store.written(j as int));
                                } else {
                                    assert(self.swapped()[w] == slot);
                                    assert(store_mid.slot_allocated(slot));
                                    assert(store.allocator == store_mid.allocator);
                                    assert(store.slot_allocated(slot));
                                    assert(store.written(slot as int));
                                }
                            }
                            assert(self.resident().dom().len() == iter_pre.resident().dom().len());
                            assert(vpn - svpn.0 >= free);
                            assert forall|w: u64| #[trigger] self.swapped().contains_key(w)
                                && w != vpn implies self.swapped()[w] != slot by {
                                assert(iter_pre.swapped().contains_key(w));
                                assert(store_pre.slot_allocated(iter_pre.swapped()[w]));
                            }
                            assert forall|w: u64|
                                svpn.0 <= w < vpn + 1 implies {
                                    &&& #[trigger] self.framed_mapped(w)
                                    &&& self.page_bytes(*store, w)
                                        == spec_init_page(
                                            *segment, data_view(init_data), w as int)
                                    &&& (w - svpn.0 < free
                                        ==> self.resident().contains_key(w))
                                    &&& (w - svpn.0 >= free
                                        ==> self.swapped().contains_key(w))
                                } by {
                                if w < vpn {
                                    assert(iter_pre.framed_mapped(w));
                                    assert(iter_pre.page_bytes(store_pre, w)
                                        == spec_init_page(
                                            *segment, data_view(init_data), w as int));
                                    if iter_pre.swapped().contains_key(w) {
                                        let j = iter_pre.swapped()[w];
                                        assert(store_pre.slot_allocated(j));
                                        assert(self.swapped()[w] == j && j != slot);
                                        assert(j < SWAP_FILE_CAPACITY);
                                        assert(store_mid.page_at(j as int)
                                            == store_pre.page_at(j as int));
                                        assert(store.page_at(j as int)
                                            == store_mid.page_at(j as int));
                                        assert(!self.resident().contains_key(w));
                                    } else {
                                        assert(iter_pre.resident().contains_key(w));
                                        assert(self.resident().contains_key(w));
                                        assert(self.resident()[w]
                                            == iter_pre.resident()[w]);
                                    }
                                    assert(self.page_bytes(*store, w)
                                        == iter_pre.page_bytes(store_pre, w));
                                } else {
                                    assert(!self.resident().contains_key(w));
                                    assert(self.swapped()[w] == slot);
                                    assert(store.page_at(slot as int) == page_data@);
                                    assert(self.page_bytes(*store, w) == page_data@);
                                }
                            }
                            assert(self.resident().dom().len()
                                == old(self).resident().dom().len()
                                    + (if vpn + 1 - svpn.0 <= free {
                                        vpn + 1 - svpn.0
                                    } else {
                                        free
                                    }));
                        }
                    }
                    vpn = vpn + 1;
                }
                proof {
                    assert forall|w: u64|
                        svpn.0 <= w < evpn.0
                            implies #[trigger] self.framed_mapped(w)
                                && self.page_bytes(*final(store), w)
                                    == spec_init_page(
                                        *segment, data_view(init_data), w as int)
                                && (w - svpn.0 < free
                                    ==> self.resident().contains_key(w))
                                && (w - svpn.0 >= free
                                    ==> self.swapped().contains_key(w))
                                && (self.resident().contains_key(w)
                                    ==> self.pte_of(w)
                                        == self.resident()[w].0 * 1024
                                            + segment.flags + 1)
                                && (self.swapped().contains_key(w)
                                    ==> self.pte_of(w) == segment.flags) by {
                        if self.resident().contains_key(w) {
                            assert(self.resident()[w].1
                                == spec_init_page(*segment, data_view(init_data), w as int));
                            assert(self.pte_of(w)
                                == self.resident()[w].0 * 1024 + segment.flags + 1);
                        } else {
                            assert(self.swapped().contains_key(w));
                            assert(store.page_at(self.swapped()[w] as int)
                                == spec_init_page(*segment, data_view(init_data), w as int));
                            assert(self.pte_of(w) == segment.flags);
                        }
                    }
                }
                Ok(())
            }
        }
    }
}

impl Mapping {
    /// Evict one resident page of the policy's choice: write its bytes into
    /// the slot of `tracker`, invalidate its leaf entry, and hand its frame
    /// back.  Used when the quota is full.
    #[verifier::loop_isolation(false)]
    #[verifier::rlimit(100)]
    fn fault_evict(
        &mut self,
        store: &mut SwapStore,
        tracker: &SwapTracker,
    ) -> (r: (u64, FrameTracker))
        requires
            old(self).wf(),
            old(store).inv(),
            old(self).resident().dom().len() > 0,
            tracker.index < SWAP_FILE_CAPACITY,
        ensures
            final(self).wf(),
            final(store).inv(),
            final(store).allocator == old(store).allocator,
            final(store).page_at(tracker.index as int) == old(self).resident()[r.0].1,
            final(store).written(tracker.index as int),
            forall|i: int|
                0 <= i < SWAP_FILE_CAPACITY && i != tracker.index
                    ==> final(store).page_at(i) == old(store).page_at(i),
            old(self).resident().contains_key(r.0),
            r.0 < VPN_LIMIT,
            r.0 == old(self).mapped_pairs.order()[0],
            final(self).mapped_pairs.order()
                == old(self).mapped_pairs.order().subrange(
                    1, old(self).mapped_pairs.order().len() as int),
            final(self).resident() == old(self).resident().remove(r.0),
            final(self).swapped() == old(self).swapped(),
            r.1.ppn == old(self).resident()[r.0].0,
            r.1.data@ == old(self).resident()[r.0].1,
            r.1.wf(),
            r.1.ppn < crate::addr::PPN_LIMIT,
            final(self).pte_of(r.0) != 0,
            !spec_valid(final(self).pte_of(r.0)),
            spec_ppn(final(self).pte_of(r.0)) == 0,
            final(self).pte_of(r.0) + 1 == spec_flags(old(self).pte_of(r.0)),
            forall|w: u64|
                w < VPN_LIMIT && w != r.0
                    ==> final(self).pte_of(w) == old(self).pte_of(w),
            final(self).root_ppn == old(self).root_ppn,
            final(self).quota() == old(self).quota(),
            forall|fa: FrameAllocator|
                old(self).owned_by(fa) ==> final(self).owned_by(fa),
    {
        let ghost pre = *self;
        let popped = self.mapped_pairs.pop();
        match popped {
            Some((victim_vpn, victim_frame)) => {
                proof {
                    assert(pre.resident().contains_key(victim_vpn));
                    assert(victim_frame.data@.len() == PAGE_SIZE);
                }
                tracker.write(store, &victim_frame.data);
                let ghost mid1 = *self;
                self.invalidate_one(VirtualPageNumber(victim_vpn));
                proof {
                    let news = *self;
                    assert(mid1.pte_of(victim_vpn) == pre.pte_of(victim_vpn));
                    assert(news.pte_of(victim_vpn) != 0) by {
                        assert(spec_flags(pre.pte_of(victim_vpn)) / 2 > 0);
                        assert(news.pte_of(victim_vpn)
                            == (spec_flags(pre.pte_of(victim_vpn)) / 2) * 2);
                    }
                    assert(news.pte_of(victim_vpn) + 1
                        == spec_flags(pre.pte_of(victim_vpn))) by {
                        assert(spec_valid(pre.pte_of(victim_vpn)));
                        assert(spec_flags(pre.pte_of(victim_vpn)) % 2 == 1);
                    }
                    assert(spec_ppn(news.pte_of(victim_vpn)) == 0) by {
                        assert(spec_flags(pre.pte_of(victim_vpn)) < 1024);
                        assert((spec_flags(pre.pte_of(victim_vpn)) / 2) * 2 < 1024);
                    }
                    assert forall|w: u64| w < VPN_LIMIT && w != victim_vpn
                        implies news.pte_of(w) == pre.pte_of(w) by {
                        assert(mid1.pte_of(w) == pre.pte_of(w));
                    }
                    assert(news.resident() == pre.resident().remove(victim_vpn));
                    assert(news.resident().dom()
                        =~= pre.resident().dom().remove(victim_vpn));
                    assert forall|w: u64| #[trigger] news.resident().contains_key(w)
                        implies {
                        &&& spec_valid(news.pte_of(w))
                        &&& spec_ppn(news.pte_of(w)) == news.resident()[w].0
                        &&& spec_flags(news.pte_of(w)) / 2 > 0
                    } by {
                        assert(pre.resident().contains_key(w));
                        assert(w != victim_vpn);
                        assert(news.pte_of(w) == pre.pte_of(w));
                        assert(news.resident()[w] == pre.resident()[w]);
                    }
                    assert forall|w: u64| #[trigger] news.swapped().contains_key(w)
                        implies {
                        &&& news.pte_of(w) != 0
                        &&& !spec_valid(news.pte_of(w))
                        &&& spec_ppn(news.pte_of(w)) == 0
                    } by {
                        assert(pre.swapped().contains_key(w));
                        assert(w != victim_vpn);
                        assert(news.pte_of(w) == pre.pte_of(w));
                    }
                    assert(news.wf());
                    assert forall|fa: FrameAllocator|
                        pre.owned_by(fa) implies news.owned_by(fa) by {
                        assert forall|w: u64| #[trigger] news.resident().contains_key(w)
                            implies fa.allocated_ppn(news.resident()[w].0) by {
                            assert(pre.resident().contains_key(w));
                        }
                        assert forall|i: int| 0 <= i < news.mid_tables@.len() implies
                            fa.allocated_ppn((#[trigger] news.mid_tables@[i]).ppn) by {
                            assert(fa.allocated_ppn(pre.mid_tables@[i].ppn));
                        }
                        assert forall|i: int| 0 <= i < news.leaf_tables@.len() implies
                            fa.allocated_ppn((#[trigger] news.leaf_tables@[i]).ppn) by {
                            assert(fa.allocated_ppn(pre.leaf_tables@[i].ppn));
                            assert(mid1.leaf_tables@[i].ppn == pre.leaf_tables@[i].ppn);
                        }
                    }
                }
                (victim_vpn, victim_frame)
            }
            None => {
                proof {
                    assert(false);
                }
                (0, FrameTracker { ppn: 0, data: Vec::new() })
            }
        }
    }

    /// Swap the faulting page into the fresh frame `frame`, whose bytes
    /// already hold the page.  Used while the quota is not reached.
    #[verifier::loop_isolation(false)]
    #[verifier::rlimit(100)]
    fn fault_fresh(&mut self, vpn_obj: VirtualPageNumber, frame: FrameTracker)
        requires
            old(self).wf(),
            vpn_obj.0 < VPN_LIMIT,
            old(self).pte_of(vpn_obj.0) != 0,
            !spec_valid(old(self).pte_of(vpn_obj.0)),
            spec_ppn(old(self).pte_of(vpn_obj.0)) == 0,
            !old(self).resident().contains_key(vpn_obj.0),
            !old(self).swapped().contains_key(vpn_obj.0),
            old(self).resident().dom().len() < old(self).quota(),
            frame.wf(),
            frame.ppn < crate::addr::PPN_LIMIT,
            forall|w: u64|
                #[trigger] old(self).resident().contains_key(w)
                    ==> old(self).resident()[w].0 != frame.ppn,
        ensures
            final(self).wf(),
            final(self).root_ppn == old(self).root_ppn,
            final(self).quota() == old(self).quota(),
            final(self).resident()
                == old(self).resident().insert(vpn_obj.0, (frame.ppn, frame.data@)),
            final(self).swapped() == old(self).swapped(),
            final(self).mapped_pairs.order()
                == old(self).mapped_pairs.order().push(vpn_obj.0),
            spec_valid(final(self).pte_of(vpn_obj.0)),
            spec_ppn(final(self).pte_of(vpn_obj.0)) == frame.ppn,
            spec_flags(final(self).pte_of(vpn_obj.0))
                == spec_flags(old(self).pte_of(vpn_obj.0)) + 1,
            forall|w: u64|
                w < VPN_LIMIT && w != vpn_obj.0
                    ==> final(self).pte_of(w) == old(self).pte_of(w),
            forall|fa: FrameAllocator|
                old(self).owned_by(fa) && fa.allocated_ppn(frame.ppn)
                    ==> final(self).owned_by(fa),
    {
        let ghost pre = *self;
        self.remap_one(vpn_obj, PhysicalPageNumber(frame.ppn));
        let ghost mid = *self;
        self.mapped_pairs.push(vpn_obj.0, frame);
        proof {
            let news = *self;
            let vpn = vpn_obj.0;
            assert forall|w: u64| news.pte_of(w) == mid.pte_of(w) by {}
            assert(news.pte_of(vpn) == mid.pte_of(vpn));
            assert(news.resident()
                == pre.resident().insert(vpn, (frame.ppn, frame.data@)));
            assert(news.swapped() == pre.swapped());
            assert(news.resident().dom() =~= pre.resident().dom().insert(vpn));
            assert forall|w: u64| w < VPN_LIMIT && w != vpn
                implies news.pte_of(w) == pre.pte_of(w) by {
                assert(mid.pte_of(w) == pre.pte_of(w));
            }
            assert(spec_valid(news.pte_of(vpn)));
            assert(spec_ppn(news.pte_of(vpn)) == frame.ppn);
            assert(spec_flags(news.pte_of(vpn)) == spec_flags(pre.pte_of(vpn)) + 1);
            assert forall|w: u64| #[trigger] news.resident().contains_key(w)
                implies {
                &&& w < VPN_LIMIT
                &&& spec_valid(news.pte_of(w))
                &&& spec_ppn(news.pte_of(w)) == news.resident()[w].0
                &&& spec_flags(news.pte_of(w)) / 2 > 0
                &&& news.resident()[w].0 < crate::addr::PPN_LIMIT
                &&& news.resident()[w].1.len() == PAGE_SIZE
                &&& !news.swapped().contains_key(w)
            } by {
                if w != vpn {
                    assert(pre.resident().contains_key(w));
                    assert(news.pte_of(w) == pre.pte_of(w));
                    assert(news.resident()[w] == pre.resident()[w]);
                } else {
                    let p = pre.pte_of(vpn);
                    assert(p / 1024 == 0 && p % 2 == 0 && p != 0);
                    assert(p < 1024);
                    assert(spec_flags(p) == p);
                    assert(p >= 2);
                    assert(spec_flags(news.pte_of(vpn)) == p + 1);
                }
            }
            assert forall|w: u64| #[trigger] news.swapped().contains_key(w)
                implies {
                &&& w < VPN_LIMIT
                &&& news.pte_of(w) != 0
                &&& !spec_valid(news.pte_of(w))
                &&& spec_ppn(news.pte_of(w)) == 0
                &&& news.swapped()[w] < SWAP_FILE_CAPACITY
            } by {
                assert(pre.swapped().contains_key(w));
                assert(w != vpn);
                assert(news.pte_of(w) == pre.pte_of(w));
            }
            assert forall|v1: u64, v2: u64|
                #[trigger] news.resident().contains_key(v1)
                    && #[trigger] news.resident().contains_key(v2) && v1 != v2
                    implies news.resident()[v1].0 != news.resident()[v2].0 by {
                if v1 != vpn && v2 != vpn {
                    assert(pre.resident().contains_key(v1));
                    assert(pre.resident().contains_key(v2));
                } else if v1 == vpn {
                    assert(pre.resident().contains_key(v2));
                } else {
                    assert(pre.resident().contains_key(v1));
                }
            }
            assert(news.wf());
            assert forall|fa: FrameAllocator|
                pre.owned_by(fa) && fa.allocated_ppn(frame.ppn)
                    implies news.owned_by(fa) by {
                assert forall|w: u64| #[trigger] news.resident().contains_key(w)
                    implies fa.allocated_ppn(news.resident()[w].0) by {
                    if w != vpn {
                        assert(pre.resident().contains_key(w));
                    }
                }
                assert forall|i: int| 0 <= i < news.leaf_tables@.len() implies
                    fa.allocated_ppn((#[trigger] news.leaf_tables@[i]).ppn) by {
                    assert(fa.allocated_ppn(pre.leaf_tables@[i].ppn));
                    assert(mid.leaf_tables@[i].ppn == pre.leaf_tables@[i].ppn);
                    assert(news.leaf_tables@[i].ppn == mid.leaf_tables@[i].ppn);
                }
            }
        }
    }

    /// Bring the faulting page back into a frame.  The page must have been
    /// swapped out, else the fault is a kill: `Err(VpnUnmapped)`.  With the
    /// quota full, a resident page of the policy's choice swaps places with
    /// the faulting one, reusing its slot; otherwise a fresh frame is taken.
    /// Every framed page keeps its bytes.
    #[verifier::loop_isolation(false)]
    #[verifier::rlimit(100)]
    pub fn handle_page_fault(
        &mut self,
        fa: &mut FrameAllocator,
        store: &mut SwapStore,
        stval: VirtualAddress,
    ) -> (r: Result<(), KernelError>)
        requires
            old(self).wf(),
            old(fa).inv(),
            old(store).inv(),
            old(self).owned_by(*old(fa)),
            old(self).consistent_with(*old(store)),
            old(self).quota() > 0,
        ensures
            final(self).wf(),
            final(fa).inv(),
            final(store).inv(),
            final(self).owned_by(*final(fa)),
            final(self).consistent_with(*final(store)),
            final(fa).base_ppn == old(fa).base_ppn,
            final(fa).capacity_spec() == old(fa).capacity_spec(),
            final(self).root_ppn == old(self).root_ppn,
            final(self).quota() == old(self).quota(),
            !old(self).swapped().contains_key(stval.0 / 4096) ==> {
                &&& r == Err::<(), KernelError>(KernelError::VpnUnmapped)
                &&& final(self).resident() == old(self).resident()
                &&& final(self).swapped() == old(self).swapped()
                &&& final(self).mapped_pairs == old(self).mapped_pairs
                &&& (forall|w: u64| final(self).pte_of(w) == old(self).pte_of(w))
                &&& *final(store) == *old(store)
                &&& *final(fa) == *old(fa)
            },
            old(self).swapped().contains_key(stval.0 / 4096) ==> {
                &&& (old(self).resident().dom().len() == old(self).quota() ==> r is Ok)
                &&& (old(self).resident().dom().len() < old(self).quota()
                    ==> (r is Ok <==> old(fa).outstanding() < old(fa).capacity_spec()))
            },
            r is Ok ==> {
                &&& final(self).resident().contains_key(stval.0 / 4096)
                &&& forall|w: u64|
                        #[trigger] old(self).framed_mapped(w) ==> final(self).framed_mapped(w)
                            && final(self).page_bytes(*final(store), w)
                                == old(self).page_bytes(*old(store), w)
                &&& forall|w: u64|
                        !old(self).framed_mapped(w) ==> !final(self).framed_mapped(w)
            },
            // With the quota full, the policy's eviction-order front swaps
            // places with the faulting page, reusing its slot and frame and
            // keeping both pages' access flags.
            r is Ok && old(self).resident().dom().len() == old(self).quota() ==> {
                let vpn = stval.0 / 4096;
                let victim = old(self).mapped_pairs.order()[0];
                let slot = old(self).swapped()[vpn];
                &&& final(self).resident() == old(self).resident().remove(victim).insert(
                    vpn, (old(self).resident()[victim].0, old(store).page_at(slot as int)))
                &&& final(self).swapped()
                    == old(self).swapped().remove(vpn).insert(victim, slot)
                &&& final(self).mapped_pairs.order()
                    == old(self).mapped_pairs.order().subrange(
                        1, old(self).mapped_pairs.order().len() as int).push(vpn)
                &&& final(self).resident().dom().len() == old(self).resident().dom().len()
                &&& final(store).page_at(slot as int) == old(self).resident()[victim].1
                &&& final(self).pte_of(victim) + 1 == spec_flags(old(self).pte_of(victim))
                &&& spec_ppn(final(self).pte_of(vpn)) == old(self).resident()[victim].0
                &&& spec_flags(final(self).pte_of(vpn))
                    == spec_flags(old(self).pte_of(vpn)) + 1
            },
            // Below the quota the faulting page takes a fresh frame and the
            // eviction order simply grows.
            r is Ok && old(self).resident().dom().len() < old(self).quota() ==> {
                let vpn = stval.0 / 4096;
                &&& final(self).swapped() == old(self).swapped().remove(vpn)
                &&& final(self).mapped_pairs.order()
                    == old(self).mapped_pairs.order().push(vpn)
                &&& final(self).resident().dom().len()
                    == old(self).resident().dom().len() + 1
                &&& final(self).resident()[vpn].1
                    == old(store).page_at(old(self).swapped()[vpn] as int)
                &&& spec_flags(final(self).pte_of(vpn))
                    == spec_flags(old(self).pte_of(vpn)) + 1
                &&& forall|w: u64|
                        w != vpn ==> (final(self).resident().contains_key(w)
                            == old(self).resident().contains_key(w))
                            && (old(self).resident().contains_key(w)
                                ==> final(self).resident()[w] == old(self).resident()[w])
            },
            (r matches Err(e) && e == KernelError::VpnUnmapped)
                <==> !old(self).swapped().contains_key(stval.0 / 4096),
            (r matches Err(e) && e == KernelError::OutOfFrames)
                <==> (old(self).swapped().contains_key(stval.0 / 4096)
                    && old(self).resident().dom().len() < old(self).quota()
                    && old(fa).outstanding() == old(fa).capacity_spec()),
            r matches Err(e)
                ==> (e == KernelError::VpnUnmapped || e == KernelError::OutOfFrames),
            forall|w: u64|
                w < VPN_LIMIT && !old(self).framed_mapped(w)
                    ==> final(self).pte_of(w) == old(self).pte_of(w),
    {
        let vpn_obj = stval.page_number();
        let vpn = vpn_obj.0;
        let ghost pre = *self;
        let ghost store_pre = *store;
        let ghost fa_pre = *fa;
        let tracker = match swap_map_remove(&mut self.swapped_pages, vpn) {
            Some(t) => t,
            None => {
                proof {
                    lemma_wf_same_views(pre, *self);
                    lemma_consistent_same_swapped2(pre, *self, *store);
                    assert forall|w: u64| self.pte_of(w) == pre.pte_of(w) by {}
                }
                return Err(KernelError::VpnUnmapped);
            }
        };
        let ghost slot = tracker.index;
        proof {
            assert(pre.swapped().contains_key(vpn));
            assert(self.swapped() == pre.swapped().remove(vpn));
            assert(vpn < VPN_LIMIT);
            assert(slot < SWAP_FILE_CAPACITY);
            assert(store.written(slot as int));
            assert(store.slot_allocated(slot));
            assert forall|w: u64| #[trigger] self.swapped().contains_key(w)
                implies {
                &&& w < VPN_LIMIT
                &&& self.pte_of(w) != 0
                &&& !spec_valid(self.pte_of(w))
                &&& spec_ppn(self.pte_of(w)) == 0
                &&& self.swapped()[w] < SWAP_FILE_CAPACITY
                &&& self.swapped()[w] != slot
                &&& store.slot_allocated(self.swapped()[w])
                &&& store.written(self.swapped()[w] as int)
            } by {
                assert(pre.swapped().contains_key(w));
            }
            assert(self.wf());
        }
        let ghost removed = *self;
        let page_data = tracker.read(store);
        if self.mapped_pairs.full() {
            let (victim_vpn, mut victim_frame) = self.fault_evict(store, &tracker);
            let ghost evicted = *self;
            let ghost store_evicted = *store;
            victim_frame.data = page_data;
            proof {
                assert(!self.resident().contains_key(vpn));
                assert(!self.swapped().contains_key(vpn));
                assert(self.pte_of(vpn) == removed.pte_of(vpn)) by {
                    assert(vpn != victim_vpn);
                }
                assert(self.resident().dom().len() < self.quota()) by {
                    assert(evicted.resident().dom()
                        =~= removed.resident().dom().remove(victim_vpn));
                }
                assert forall|w: u64| #[trigger] self.resident().contains_key(w)
                    implies self.resident()[w].0 != victim_frame.ppn by {
                    assert(removed.resident().contains_key(w));
                    assert(w != victim_vpn);
                    assert(removed.resident()[w].0
                        != removed.resident()[victim_vpn].0);
                }
            }
            self.fault_fresh(vpn_obj, victim_frame);
            let ghost fresh = *self;
            swap_map_insert(&mut self.swapped_pages, victim_vpn, tracker);
            proof {
                let news = *self;
                assert(news.resident() == fresh.resident());
                assert(news.swapped() == removed.swapped().insert(victim_vpn, slot));
                assert forall|w: u64| news.pte_of(w) == fresh.pte_of(w) by {}
                // Duality for the evicted page and everything else.
                assert forall|w: u64| #[trigger] news.swapped().contains_key(w)
                    implies {
                    &&& w < VPN_LIMIT
                    &&& news.pte_of(w) != 0
                    &&& !spec_valid(news.pte_of(w))
                    &&& spec_ppn(news.pte_of(w)) == 0
                    &&& news.swapped()[w] < SWAP_FILE_CAPACITY
                } by {
                    if w == victim_vpn {
                        assert(fresh.pte_of(victim_vpn) == evicted.pte_of(victim_vpn));
                    } else {
                        assert(removed.swapped().contains_key(w));
                    }
                }
                assert forall|w: u64| #[trigger] news.resident().contains_key(w)
                    implies !news.swapped().contains_key(w) by {
                    if w == victim_vpn {
                        assert(!fresh.resident().contains_key(victim_vpn)) by {
                            if fresh.resident().contains_key(victim_vpn) {
                                assert(victim_vpn == vpn
                                    || evicted.resident().contains_key(victim_vpn));
                            }
                        }
                        assert(false);
                    }
                }
                assert forall|v1: u64, v2: u64|
                    #[trigger] news.swapped().contains_key(v1)
                        && #[trigger] news.swapped().contains_key(v2) && v1 != v2
                        implies news.swapped()[v1] != news.swapped()[v2] by {
                    if v1 != victim_vpn && v2 != victim_vpn {
                        assert(removed.swapped().contains_key(v1));
                        assert(removed.swapped().contains_key(v2));
                        assert(pre.swapped().contains_key(v1));
                        assert(pre.swapped().contains_key(v2));
                    } else if v1 == victim_vpn {
                        assert(removed.swapped().contains_key(v2));
                        assert(removed.swapped()[v2] != slot);
                    } else {
                        assert(removed.swapped().contains_key(v1));
                        assert(removed.swapped()[v1] != slot);
                    }
                }
                assert(news.wf());
                lemma_owned_same_allocated(removed, fa_pre, *fa);
                assert(news.owned_by(*fa)) by {
                    assert(evicted.owned_by(*fa));
                    assert(fa.allocated_ppn(victim_frame.ppn)) by {
                        assert(removed.resident().contains_key(victim_vpn));
                    }
                    assert(fresh.owned_by(*fa));
                    assert forall|w: u64| #[trigger] news.resident().contains_key(w)
                        implies fa.allocated_ppn(news.resident()[w].0) by {
                        assert(fresh.resident().contains_key(w));
                    }
                }
                assert forall|w: u64| #[trigger] news.swapped().contains_key(w)
                    implies store.slot_allocated(news.swapped()[w])
                        && store.written(news.swapped()[w] as int) by {
                    if w == victim_vpn {
                        assert(store_evicted.written(slot as int));
                        assert(store_pre.slot_allocated(slot));
                    } else {
                        assert(removed.swapped().contains_key(w));
                        assert(pre.swapped().contains_key(w));
                        assert(store_pre.slot_allocated(pre.swapped()[w]));
                        assert(store_pre.written(pre.swapped()[w] as int));
                        assert(pre.swapped()[w] != slot);
                        assert(store.page_at(pre.swapped()[w] as int)
                            == store_pre.page_at(pre.swapped()[w] as int));
                    }
                }
                // Every framed page keeps its bytes.
                assert forall|w: u64| #[trigger] pre.framed_mapped(w)
                    implies news.framed_mapped(w)
                        && news.page_bytes(*store, w) == pre.page_bytes(store_pre, w) by {
                    if w == vpn {
                        assert(news.resident().contains_key(vpn));
                        assert(news.resident()[vpn].1 == page_data@);
                        assert(pre.page_bytes(store_pre, w)
                            == store_pre.page_at(slot as int));
                    } else if w == victim_vpn {
                        assert(news.swapped().contains_key(victim_vpn));
                        assert(!news.resident().contains_key(victim_vpn));
                        assert(news.page_bytes(*store, w) == store.page_at(slot as int));
                        assert(store.page_at(slot as int)
                            == removed.resident()[victim_vpn].1);
                        assert(pre.page_bytes(store_pre, w)
                            == pre.resident()[victim_vpn].1);
                    } else if pre.resident().contains_key(w) {
                        assert(news.resident().contains_key(w));
                        assert(news.resident()[w] == pre.resident()[w]);
                    } else {
                        assert(pre.swapped().contains_key(w));
                        assert(removed.swapped().contains_key(w));
                        assert(news.swapped().contains_key(w));
                        assert(news.swapped()[w] == pre.swapped()[w]);
                        assert(pre.swapped()[w] != slot);
                        assert(store.page_at(pre.swapped()[w] as int)
                            == store_pre.page_at(pre.swapped()[w] as int));
                        assert(!news.resident().contains_key(w)) by {
                            if news.resident().contains_key(w) {
                                assert(news.swapped().contains_key(w));
                            }
                        }
                        assert(!pre.resident().contains_key(w));
                    }
                }
                assert forall|w: u64| !pre.framed_mapped(w)
                    implies !news.framed_mapped(w) by {
                    assert(!removed.resident().contains_key(w));
                    assert(!removed.swapped().contains_key(w));
                    if w != vpn && w != victim_vpn {
                        assert(!news.resident().contains_key(w));
                        assert(!news.swapped().contains_key(w));
                    }
                }
                assert forall|w: u64| w < VPN_LIMIT && !pre.framed_mapped(w)
                    implies news.pte_of(w) == pre.pte_of(w) by {
                    assert(w != vpn && w != victim_vpn);
                }
            }
            Ok(())
        } else {
            let mut frame = match fa.allocate() {
                Ok(f) => f,
                Err(e) => {
                    tracker.release(store);
                    proof {
                        lemma_owned_same_allocated(pre, fa_pre, *fa);
                        lemma_owned_same_tables(pre, *self, *fa);
                        assert forall|w: u64| #[trigger] self.swapped().contains_key(w)
                            implies store.slot_allocated(self.swapped()[w])
                                && store.written(self.swapped()[w] as int) by {
                            assert(pre.swapped().contains_key(w));
                        }
                    }
                    proof {
                        assert forall|w: u64| self.pte_of(w) == pre.pte_of(w) by {}
                    }
                    return Err(e);
                }
            };
            frame.data = page_data;
            proof {
                assert forall|w: u64| #[trigger] self.resident().contains_key(w)
                    implies self.resident()[w].0 != frame.ppn by {
                    assert(fa_pre.allocated_ppn(self.resident()[w].0));
                }
            }
            self.fault_fresh(vpn_obj, frame);
            proof {
                let news = *self;
                lemma_owned_same_allocated(removed, fa_pre, *fa);
                assert(removed.owned_by(*fa));
                assert(news.owned_by(*fa)) by {
                    assert(fa.allocated_ppn(frame.ppn));
                }
                assert forall|w: u64| #[trigger] news.swapped().contains_key(w)
                    implies store.slot_allocated(news.swapped()[w])
                        && store.written(news.swapped()[w] as int) by {
                    assert(removed.swapped().contains_key(w));
                }
                assert forall|w: u64| #[trigger] pre.framed_mapped(w)
                    implies news.framed_mapped(w)
                        && news.page_bytes(*store, w) == pre.page_bytes(store_pre, w) by {
                    if w == vpn {
                        assert(news.resident().contains_key(vpn));
                        assert(news.page_bytes(*store, w) == frame.data@);
                        assert(pre.page_bytes(store_pre, w)
                            == store_pre.page_at(slot as int));
                    } else if pre.resident().contains_key(w) {
                        assert(news.resident().contains_key(w));
                        assert(news.resident()[w] == pre.resident()[w]);
                    } else {
                        assert(pre.swapped().contains_key(w));
                        assert(news.swapped().contains_key(w));
                        assert(news.swapped()[w] == pre.swapped()[w]);
                        assert(!news.resident().contains_key(w)) by {
                            if news.resident().contains_key(w) {
                                assert(news.swapped().contains_key(w));
                            }
                        }
                        assert(!pre.resident().contains_key(w));
                    }
                }
                assert forall|w: u64| !pre.framed_mapped(w)
                    implies !news.framed_mapped(w) by {
                    assert(!removed.resident().contains_key(w));
                    assert(!removed.swapped().contains_key(w));
                    if w != vpn {
                        assert(!news.resident().contains_key(w));
                        assert(!news.swapped().contains_key(w));
                    }
                }
                assert forall|w: u64| w < VPN_LIMIT && !pre.framed_mapped(w)
                    implies news.pte_of(w) == pre.pte_of(w) by {
                    assert(w != vpn);
                }
            }
            Ok(())
        }
    }
}

impl Mapping {
    /// Translate a virtual address through this mapping's tree, as the
    /// hardware would: stop at the first entry that is a leaf (valid with R,
    /// W or X set) and add the untranslated low bits.  An entry carrying an
    /// out-of-range page number translates nowhere.
    pub open spec fn spec_lookup(self, va: VirtualAddress) -> Option<int> {
        let vpn = va.0 / 4096;
        let e2 = self.root_table.entries@[spec_level2(vpn)].bits;
        if e2 == 0 {
            None
        } else if !spec_link(e2) {
            if spec_valid(e2) && spec_ppn(e2) < crate::addr::PPN_LIMIT {
                Some(spec_ppn(e2) * 4096 + va.0 % 0x4000_0000)
            } else {
                None
            }
        } else if !has_table(self.mid_tables@, spec_ppn(e2)) {
            None
        } else {
            let e1 = table_of(self.mid_tables@, spec_ppn(e2)).entries@[spec_level1(vpn)].bits;
            if e1 == 0 {
                None
            } else if !spec_link(e1) {
                if spec_valid(e1) && spec_ppn(e1) < crate::addr::PPN_LIMIT {
                    Some(spec_ppn(e1) * 4096 + va.0 % 0x20_0000)
                } else {
                    None
                }
            } else if !has_table(self.leaf_tables@, spec_ppn(e1)) {
                None
            } else {
                let e0 = table_of(self.leaf_tables@, spec_ppn(e1))
                    .entries@[spec_level0(vpn)].bits;
                if spec_valid(e0) && spec_ppn(e0) < crate::addr::PPN_LIMIT {
                    Some(spec_ppn(e0) * 4096 + va.0 % 4096)
                } else {
                    None
                }
            }
        }
    }

    /// Walk the tree for `va`, supporting huge pages: the first leaf entry
    /// found supplies the physical page, the remaining low bits pass through.
    pub fn lookup(&self, va: VirtualAddress) -> (r: Option<PhysicalAddress>)
        requires
            self.wf_tables(),
        ensures
            r is None <==> self.spec_lookup(va) is None,
            r matches Some(pa) ==> self.spec_lookup(va) == Some(pa.0 as int),
    {
        let vpn = VirtualPageNumber::floor(va);
        let e2 = self.root_table.entry(vpn.level2());
        if e2.is_empty() {
            return None;
        }
        if !e2.has_next_level() {
            if e2.is_valid() && e2.page_number().0 < crate::addr::PPN_LIMIT {
                return Some(PhysicalAddress(
                    e2.page_number().0 * 4096 + va.0 % 0x4000_0000));
            }
            return None;
        }
        let mi = match find_table(&self.mid_tables, e2.page_number().0) {
            Some(mi) => mi,
            None => {
                proof {
                    assert(false);
                }
                return None;
            }
        };
        proof {
            lemma_table_of_index(self.mid_tables@, mi as int);
        }
        let e1 = self.mid_tables[mi].entry(vpn.level1());
        if e1.is_empty() {
            return None;
        }
        if !e1.has_next_level() {
            if e1.is_valid() && e1.page_number().0 < crate::addr::PPN_LIMIT {
                return Some(PhysicalAddress(
                    e1.page_number().0 * 4096 + va.0 % 0x20_0000));
            }
            return None;
        }
        let li = match find_table(&self.leaf_tables, e1.page_number().0) {
            Some(li) => li,
            None => {
                proof {
                    assert(false);
                }
                return None;
            }
        };
        proof {
            lemma_table_of_index(self.leaf_tables@, li as int);
        }
        let e0 = self.leaf_tables[li].entry(vpn.level0());
        if e0.is_valid() && e0.page_number().0 < crate::addr::PPN_LIMIT {
            Some(PhysicalAddress(e0.page_number().0 * 4096 + va.0 % 4096))
        } else {
            None
        }
    }

    /// A valid framed or linear page translates to its frame: the walk ends
    /// on its leaf entry.
    pub proof fn lemma_lookup_mapped(self, va: VirtualAddress)
        requires
            self.wf_tables(),
            va.0 / 4096 < VPN_LIMIT,
            spec_valid(self.pte_of(va.0 / 4096)),
            spec_ppn(self.pte_of(va.0 / 4096)) < crate::addr::PPN_LIMIT,
        ensures
            self.spec_lookup(va)
                == Some(spec_ppn(self.pte_of(va.0 / 4096)) * 4096 + va.0 % 4096),
    {
        let vpn = va.0 / 4096;
        let e2 = self.root_table.entries@[spec_level2(vpn)].bits;
        assert(e2 != 0);
        assert(spec_link(e2));
        let e1 = table_of(self.mid_tables@, spec_ppn(e2)).entries@[spec_level1(vpn)].bits;
        assert(e1 != 0);
        assert(spec_link(e1)) by {
            let i = choose|i: int|
                0 <= i < self.mid_tables@.len()
                    && self.mid_tables@[i].ppn == spec_ppn(e2);
            assert(self.mid_tables@[i].entries@[spec_level1(vpn)].bits == e1);
        }
    }
}

impl Mapping {
    /// Hand every swap slot of pages in `svpn..evpn` back to the store and
    /// take those pages out of the swapped book.
    #[verifier::loop_isolation(false)]
    #[verifier::rlimit(100)]
    fn unmap_release_slots(&mut self, store: &mut SwapStore, svpn: u64, evpn: u64)
        requires
            old(self).wf(),
            old(store).inv(),
            old(self).consistent_with(*old(store)),
        ensures
            final(self).wf(),
            final(store).inv(),
            final(self).consistent_with(*final(store)),
            final(self).mapped_pairs == old(self).mapped_pairs,
            final(self).root_table == old(self).root_table,
            final(self).mid_tables@ == old(self).mid_tables@,
            final(self).leaf_tables@ == old(self).leaf_tables@,
            final(self).root_ppn == old(self).root_ppn,
            final(store).pages@ == old(store).pages@,
            forall|i: usize| final(store).slot_allocated(i) ==> old(store).slot_allocated(i),
            forall|v: u64| svpn <= v < evpn ==> !final(self).swapped().contains_key(v),
            forall|v: u64|
                svpn <= v < evpn && old(self).swapped().contains_key(v)
                    ==> !final(store).slot_allocated(old(self).swapped()[v]),
            forall|v: u64|
                !(svpn <= v < evpn) ==> {
                    &&& final(self).swapped().contains_key(v)
                        == old(self).swapped().contains_key(v)
                    &&& (old(self).swapped().contains_key(v)
                        ==> final(self).swapped()[v] == old(self).swapped()[v])
                },
            forall|w: u64| final(self).pte_of(w) == old(self).pte_of(w),
    {
        let ghost pre = *self;
        let ghost store_pre = *store;
        let mut w: u64 = svpn;
        if evpn <= svpn {
            return;
        }
        while w < evpn
            invariant
                self.wf(),
                store.inv(),
                self.consistent_with(*store),
                svpn <= w <= evpn,
                store.pages@ == store_pre.pages@,
                forall|i: usize| store.slot_allocated(i) ==> store_pre.slot_allocated(i),
                self.mapped_pairs == pre.mapped_pairs,
                self.root_table == pre.root_table,
                self.mid_tables@ == pre.mid_tables@,
                self.leaf_tables@ == pre.leaf_tables@,
                self.root_ppn == pre.root_ppn,
                self.swapped()
                    == pre.swapped().remove_keys(Set::new(|v: u64| svpn <= v < w)),
                forall|v: u64|
                    svpn <= v < w && pre.swapped().contains_key(v)
                        ==> !store.slot_allocated(pre.swapped()[v]),
                forall|w3: u64| self.pte_of(w3) == pre.pte_of(w3),
            decreases evpn - w,
        {
            let ghost swapped_before = self.swapped();
            let ghost self_before = *self;
            match swap_map_remove(&mut self.swapped_pages, w) {
                Some(t) => {
                    proof {
                        assert(swapped_before.contains_key(w));
                        assert(store.slot_allocated(t.index));
                    }
                    let ghost store_before = *store;
                    t.release(store);
                    proof {
                        lemma_wf_same_views2(self_before, *self);
                        assert forall|v: u64| #[trigger] self.swapped().contains_key(v)
                            implies store.slot_allocated(self.swapped()[v])
                                && store.written(self.swapped()[v] as int) by {
                            assert(swapped_before.contains_key(v));
                            assert(v != w);
                            assert(self_before.swapped()[v] != t.index);
                        }
                        assert forall|w3: u64| self.pte_of(w3) == self_before.pte_of(w3)
                            by {}
                        assert(self.swapped() =~= pre.swapped().remove_keys(
                            Set::new(|v: u64| svpn <= v < w + 1)));
                        assert forall|v: u64|
                            svpn <= v < w + 1 && pre.swapped().contains_key(v)
                                implies !store.slot_allocated(pre.swapped()[v]) by {
                            if v < w {
                                assert(!store_before.slot_allocated(pre.swapped()[v]));
                            } else {
                                assert(pre.swapped()[w] == t.index);
                            }
                        }
                    }
                }
                None => {
                    proof {
                        lemma_wf_same_views2(self_before, *self);
                        assert forall|v: u64| #[trigger] self.swapped().contains_key(v)
                            implies store.slot_allocated(self.swapped()[v])
                                && store.written(self.swapped()[v] as int) by {
                            assert(swapped_before.contains_key(v));
                        }
                        assert forall|w3: u64| self.pte_of(w3) == self_before.pte_of(w3)
                            by {}
                        assert(!swapped_before.contains_key(w));
                        assert(self.swapped() =~= pre.swapped().remove_keys(
                            Set::new(|v: u64| svpn <= v < w + 1)));
                        assert(!pre.swapped().contains_key(w)) by {
                            assert(!Set::new(|v: u64| svpn <= v < w).contains(w));
                        }
                    }
                }
            }
            w = w + 1;
        }
        proof {
            assert forall|v: u64| svpn <= v < evpn implies
                !self.swapped().contains_key(v) by {
                assert(Set::new(|x: u64| svpn <= x < evpn).contains(v));
            }
            assert forall|v: u64| !(svpn <= v < evpn) implies {
                &&& self.swapped().contains_key(v) == pre.swapped().contains_key(v)
                &&& (pre.swapped().contains_key(v)
                    ==> self.swapped()[v] == pre.swapped()[v])
            } by {
                assert(!Set::new(|x: u64| svpn <= x < evpn).contains(v));
            }
        }
    }

    /// Zero the leaf entries of `svpn..evpn`; none of those pages may be in
    /// the books any more.
    #[verifier::loop_isolation(false)]
    #[verifier::rlimit(100)]
    fn unmap_clear(&mut self, svpn: u64, evpn: u64)
        requires
            old(self).wf(),
            evpn <= VPN_LIMIT,
            forall|v: u64|
                svpn <= v < evpn ==> {
                    &&& !old(self).resident().contains_key(v)
                    &&& !old(self).swapped().contains_key(v)
                    &&& old(self).pte_of(v) != 0
                },
        ensures
            final(self).wf(),
            final(self).mapped_pairs == old(self).mapped_pairs,
            final(self).swapped_pages == old(self).swapped_pages,
            final(self).root_table == old(self).root_table,
            final(self).mid_tables@ == old(self).mid_tables@,
            final(self).root_ppn == old(self).root_ppn,
            final(self).leaf_tables@.len() == old(self).leaf_tables@.len(),
            forall|i: int|
                0 <= i < old(self).leaf_tables@.len()
                    ==> (#[trigger] final(self).leaf_tables@[i]).ppn
                        == old(self).leaf_tables@[i].ppn,
            forall|v: u64| svpn <= v < evpn ==> final(self).pte_of(v) == 0,
            forall|v: u64|
                v < VPN_LIMIT && !(svpn <= v < evpn)
                    ==> final(self).pte_of(v) == old(self).pte_of(v),
    {
        let ghost pre = *self;
        let mut w2: u64 = svpn;
        if evpn <= svpn {
            return;
        }
        while w2 < evpn
            invariant
                self.wf(),
                svpn <= w2 <= evpn,
                self.mapped_pairs == pre.mapped_pairs,
                self.swapped_pages == pre.swapped_pages,
                self.root_ppn == pre.root_ppn,
                self.mid_tables@ == pre.mid_tables@,
                self.root_table == pre.root_table,
                self.leaf_tables@.len() == pre.leaf_tables@.len(),
                forall|i: int|
                    0 <= i < pre.leaf_tables@.len()
                        ==> (#[trigger] self.leaf_tables@[i]).ppn
                            == pre.leaf_tables@[i].ppn,
                forall|v: u64| svpn <= v < w2 ==> self.pte_of(v) == 0,
                forall|v: u64|
                    v < VPN_LIMIT && !(svpn <= v < w2)
                        ==> self.pte_of(v) == pre.pte_of(v),
            decreases evpn - w2,
        {
            let page = VirtualPageNumber(w2);
            proof {
                assert(self.pte_of(w2) == pre.pte_of(w2));
                assert(pre.pte_of(w2) != 0);
            }
            let ghost self_before = *self;
            self.set_leaf(page, PageTableEntry::empty());
            proof {
                assert forall|v: u64| #[trigger] self.resident().contains_key(v)
                    implies {
                    &&& spec_valid(self.pte_of(v))
                    &&& spec_ppn(self.pte_of(v)) == self.resident()[v].0
                    &&& spec_flags(self.pte_of(v)) / 2 > 0
                } by {
                    assert(self_before.resident().contains_key(v));
                    assert(!(svpn <= v < evpn));
                    assert(v != w2);
                    assert(self.pte_of(v) == self_before.pte_of(v));
                }
                assert forall|v: u64| #[trigger] self.swapped().contains_key(v)
                    implies {
                    &&& self.pte_of(v) != 0
                    &&& !spec_valid(self.pte_of(v))
                    &&& spec_ppn(self.pte_of(v)) == 0
                } by {
                    assert(self_before.swapped().contains_key(v));
                    assert(!(svpn <= v < evpn));
                    assert(v != w2);
                    assert(self.pte_of(v) == self_before.pte_of(v));
                }
                assert(self.wf());
            }
            w2 = w2 + 1;
        }
    }
}

impl Mapping {
    /// Take a segment out of the mapping: clear every leaf entry it covers,
    /// hand the covered swap slots back to the store, and return the
    /// resident frames so the caller can hand them back to the frame
    /// allocator (on hardware their drop does that).  Every covered page
    /// must be mapped.
    #[verifier::loop_isolation(false)]
    #[verifier::rlimit(100)]
    pub fn unmap(
        &mut self,
        store: &mut SwapStore,
        segment: &Segment,
    ) -> (freed: Vec<(u64, FrameTracker)>)
        requires
            old(self).wf(),
            old(store).inv(),
            old(self).consistent_with(*old(store)),
            segment.wf(),
            forall|w: u64|
                spec_start_vpn(*segment) <= w < spec_end_vpn(*segment)
                    ==> old(self).pte_of(w) != 0,
        ensures
            final(self).wf(),
            final(store).inv(),
            final(self).consistent_with(*final(store)),
            final(self).root_ppn == old(self).root_ppn,
            final(self).quota() == old(self).quota(),
            final(store).pages@ == old(store).pages@,
            forall|i: usize| final(store).slot_allocated(i) ==> old(store).slot_allocated(i),
            forall|fa: FrameAllocator|
                old(self).owned_by(fa) ==> final(self).owned_by(fa),
            forall|w: u64|
                spec_start_vpn(*segment) <= w < spec_end_vpn(*segment) ==> {
                    &&& final(self).pte_of(w) == 0
                    &&& !final(self).resident().contains_key(w)
                    &&& !final(self).swapped().contains_key(w)
                },
            forall|w: u64|
                w < VPN_LIMIT && !(spec_start_vpn(*segment) <= w < spec_end_vpn(*segment))
                    ==> final(self).pte_of(w) == old(self).pte_of(w),
            forall|w: u64|
                !(spec_start_vpn(*segment) <= w < spec_end_vpn(*segment)) ==> {
                    &&& final(self).resident().contains_key(w)
                        == old(self).resident().contains_key(w)
                    &&& (old(self).resident().contains_key(w)
                        ==> final(self).resident()[w] == old(self).resident()[w])
                    &&& final(self).swapped().contains_key(w)
                        == old(self).swapped().contains_key(w)
                    &&& (old(self).swapped().contains_key(w)
                        ==> final(self).swapped()[w] == old(self).swapped()[w])
                },
            forall|k: int| 0 <= k < freed@.len() ==> {
                &&& old(self).resident().contains_key((#[trigger] freed@[k]).0)
                &&& spec_start_vpn(*segment) <= freed@[k].0 < spec_end_vpn(*segment)
                &&& freed@[k].1.ppn == old(self).resident()[freed@[k].0].0
                &&& freed@[k].1.data@ == old(self).resident()[freed@[k].0].1
            },
            forall|k1: int, k2: int|
                0 <= k1 < k2 < freed@.len() ==> freed@[k1].0 != freed@[k2].0,
            // Every covered resident page comes back in `freed`, and every
            // covered swap slot is free again in the store.
            forall|w: u64|
                old(self).resident().contains_key(w)
                    && spec_start_vpn(*segment) <= w < spec_end_vpn(*segment)
                    ==> exists|k: int| 0 <= k < freed@.len() && freed@[k].0 == w,
            forall|w: u64|
                old(self).swapped().contains_key(w)
                    && spec_start_vpn(*segment) <= w < spec_end_vpn(*segment)
                    ==> !final(store).slot_allocated(old(self).swapped()[w]),
    {
        let (svpn, evpn) = segment.page_range();
        let ghost pre = *self;
        let ghost store_pre = *store;
        // Take the resident frames the segment covers out of the books.
        let removed = self.mapped_pairs.retain(svpn.0, evpn.0);
        proof {
            assert forall|w: u64| #[trigger] self.resident().contains_key(w)
                implies {
                &&& w < VPN_LIMIT
                &&& spec_valid(self.pte_of(w))
                &&& spec_ppn(self.pte_of(w)) == self.resident()[w].0
                &&& spec_flags(self.pte_of(w)) / 2 > 0
                &&& self.resident()[w].0 < crate::addr::PPN_LIMIT
                &&& self.resident()[w].1.len() == PAGE_SIZE
                &&& !self.swapped().contains_key(w)
            } by {
                assert(pre.resident().contains_key(w));
                assert(self.resident()[w] == pre.resident()[w]);
            }
            assert(self.resident().dom() <= pre.resident().dom()) by {
                assert forall|w: u64| self.resident().dom().contains(w)
                    implies pre.resident().dom().contains(w) by {
                    assert(self.resident().contains_key(w));
                    assert(pre.resident().contains_key(w));
                }
            }
            vstd::set_lib::lemma_len_subset(
                self.resident().dom(), pre.resident().dom());
            assert forall|w: u64| #[trigger] self.swapped().contains_key(w)
                implies {
                &&& w < VPN_LIMIT
                &&& self.pte_of(w) != 0
                &&& !spec_valid(self.pte_of(w))
                &&& spec_ppn(self.pte_of(w)) == 0
                &&& self.swapped()[w] < SWAP_FILE_CAPACITY
            } by {
                assert(pre.swapped().contains_key(w));
                assert(self.pte_of(w) == pre.pte_of(w));
            }
            assert forall|v1: u64, v2: u64|
                #[trigger] self.resident().contains_key(v1)
                    && #[trigger] self.resident().contains_key(v2) && v1 != v2
                    implies self.resident()[v1].0 != self.resident()[v2].0 by {
                assert(pre.resident().contains_key(v1));
                assert(pre.resident().contains_key(v2));
            }
            assert forall|v1: u64, v2: u64|
                #[trigger] self.swapped().contains_key(v1)
                    && #[trigger] self.swapped().contains_key(v2) && v1 != v2
                    implies self.swapped()[v1] != self.swapped()[v2] by {
                assert(pre.swapped().contains_key(v1));
                assert(pre.swapped().contains_key(v2));
            }
            assert forall|w: u64| self.pte_of(w) == pre.pte_of(w) by {}
            assert(self.wf());
            assert forall|fa: FrameAllocator| pre.owned_by(fa)
                implies self.owned_by(fa) by {
                assert forall|w: u64| #[trigger] self.resident().contains_key(w)
                    implies fa.allocated_ppn(self.resident()[w].0) by {
                    assert(pre.resident().contains_key(w));
                }
            }
            assert forall|w: u64| #[trigger] self.swapped().contains_key(w)
                implies store.slot_allocated(self.swapped()[w])
                    && store.written(self.swapped()[w] as int) by {
                assert(pre.swapped().contains_key(w));
            }
        }
        let ghost after_retain = *self;
        self.unmap_release_slots(store, svpn.0, evpn.0);
        proof {
            assert forall|w3: u64|
                w3 < VPN_LIMIT && spec_start_vpn(*segment) <= w3 < spec_end_vpn(*segment)
                    implies self.pte_of(w3) != 0 by {
                assert(self.pte_of(w3) == pre.pte_of(w3));
            }
        }
        let ghost after_slots = *self;
        let ghost store_after = *store;
        self.unmap_clear(svpn.0, evpn.0);
        proof {
            assert forall|w: u64|
                pre.resident().contains_key(w) && svpn.0 <= w < evpn.0
                    implies exists|k: int|
                        0 <= k < removed@.len() && removed@[k].0 == w by {
                assert(pre.mapped_pairs.resident().contains_key(w));
            }
            assert forall|w: u64|
                pre.swapped().contains_key(w) && svpn.0 <= w < evpn.0
                    implies !store.slot_allocated(pre.swapped()[w]) by {
                assert(after_retain.swapped().contains_key(w));
                assert(after_retain.swapped()[w] == pre.swapped()[w]);
            }
            assert(self.swapped() == after_slots.swapped());
            assert(self.resident() == after_slots.resident());
            assert forall|w3: u64| #[trigger] self.swapped().contains_key(w3)
                implies store.slot_allocated(self.swapped()[w3])
                    && store.written(self.swapped()[w3] as int) by {
                assert(after_slots.swapped().contains_key(w3));
            }
            assert forall|w3: u64|
                spec_start_vpn(*segment) <= w3 < spec_end_vpn(*segment)
                    implies !self.resident().contains_key(w3)
                        && !self.swapped().contains_key(w3) by {
                if self.resident().contains_key(w3) {
                    assert(after_retain.resident().contains_key(w3));
                }
                assert(!after_slots.swapped().contains_key(w3));
            }
        }
        proof {
            assert forall|fa: FrameAllocator| pre.owned_by(fa)
                implies self.owned_by(fa) by {
                assert forall|v: u64| #[trigger] self.resident().contains_key(v)
                    implies fa.allocated_ppn(self.resident()[v].0) by {
                    assert(pre.resident().contains_key(v));
                }
                assert forall|i: int| 0 <= i < self.leaf_tables@.len() implies
                    fa.allocated_ppn((#[trigger] self.leaf_tables@[i]).ppn) by {
                    assert(fa.allocated_ppn(pre.leaf_tables@[i].ppn));
                }
                assert forall|i: int| 0 <= i < self.mid_tables@.len() implies
                    fa.allocated_ppn((#[trigger] self.mid_tables@[i]).ppn) by {
                    assert(fa.allocated_ppn(pre.mid_tables@[i].ppn));
                }
            }
        }
        removed
    }
}

impl Mapping {
    /// The duality between the books and the tree: every resident page has
    /// a valid leaf entry carrying its frame's page number, and every
    /// swapped-out page has a non-empty invalid leaf entry with the page
    /// number cleared and the access flags preserved in place.
    pub proof fn lemma_pte_duality(self, vpn: u64)
        requires
            self.wf(),
        ensures
            self.resident().contains_key(vpn) ==> {
                &&& spec_valid(self.pte_of(vpn))
                &&& spec_ppn(self.pte_of(vpn)) == self.resident()[vpn].0
                &&& spec_flags(self.pte_of(vpn)) / 2 > 0
            },
            self.swapped().contains_key(vpn) ==> {
                &&& self.pte_of(vpn) != 0
                &&& !spec_valid(self.pte_of(vpn))
                &&& spec_ppn(self.pte_of(vpn)) == 0
            },
    {
    }

    /// The quota bound: the resident pages never outnumber the quota.
    pub proof fn lemma_resident_quota(self)
        requires
            self.wf(),
        ensures
            self.resident().dom().len() <= self.quota(),
    {
    }
}

/// Well-formedness carries over when only the swapped book shrank in a way
/// the caller has already accounted for.
proof fn lemma_wf_same_views2(a: Mapping, b: Mapping)
    requires
        a.wf(),
        b.root_table == a.root_table,
        b.mid_tables@ == a.mid_tables@,
        b.leaf_tables@ == a.leaf_tables@,
        b.root_ppn == a.root_ppn,
        b.mapped_pairs == a.mapped_pairs,
        forall|w: u64|
            #[trigger] swap_map_view(b.swapped_pages).contains_key(w)
                ==> swap_map_view(a.swapped_pages).contains_key(w)
                    && swap_map_view(b.swapped_pages)[w]
                        == swap_map_view(a.swapped_pages)[w],
    ensures
        b.wf(),
{
    assert(b.resident() == a.resident());
    assert forall|w: u64| b.pte_of(w) == a.pte_of(w) by {}
    assert forall|w: u64| #[trigger] b.resident().contains_key(w) implies {
        &&& w < VPN_LIMIT
        &&& spec_valid(b.pte_of(w))
        &&& spec_ppn(b.pte_of(w)) == b.resident()[w].0
        &&& spec_flags(b.pte_of(w)) / 2 > 0
        &&& b.resident()[w].0 < crate::addr::PPN_LIMIT
        &&& b.resident()[w].1.len() == PAGE_SIZE
        &&& !b.swapped().contains_key(w)
    } by {
        assert(a.resident().contains_key(w));
        assert(b.pte_of(w) == a.pte_of(w));
        if b.swapped().contains_key(w) {
            assert(a.swapped().contains_key(w));
        }
    }
    assert forall|w: u64| #[trigger] b.swapped().contains_key(w) implies {
        &&& w < VPN_LIMIT
        &&& b.pte_of(w) != 0
        &&& !spec_valid(b.pte_of(w))
        &&& spec_ppn(b.pte_of(w)) == 0
        &&& b.swapped()[w] < SWAP_FILE_CAPACITY
    } by {
        assert(a.swapped().contains_key(w));
        assert(b.pte_of(w) == a.pte_of(w));
    }
    assert forall|v1: u64, v2: u64|
        #[trigger] b.swapped().contains_key(v1)
            && #[trigger] b.swapped().contains_key(v2) && v1 != v2
            implies b.swapped()[v1] != b.swapped()[v2] by {
        assert(a.swapped().contains_key(v1));
        assert(a.swapped().contains_key(v2));
    }
}

/// A mapping is owned by any allocator holding at least the same pages.
proof fn lemma_owned_same_allocated(m: Mapping, fa1: FrameAllocator, fa2: FrameAllocator)
    requires
        m.owned_by(fa1),
        forall|p: u64| fa1.allocated_ppn(p) ==> fa2.allocated_ppn(p),
    ensures
        m.owned_by(fa2),
{
    assert(fa1.allocated_ppn(m.root_table.ppn));
    assert forall|i: int| 0 <= i < m.mid_tables@.len() implies
        fa2.allocated_ppn((#[trigger] m.mid_tables@[i]).ppn) by {
        assert(fa1.allocated_ppn(m.mid_tables@[i].ppn));
    }
    assert forall|i: int| 0 <= i < m.leaf_tables@.len() implies
        fa2.allocated_ppn((#[trigger] m.leaf_tables@[i]).ppn) by {
        assert(fa1.allocated_ppn(m.leaf_tables@[i].ppn));
    }
    assert forall|vpn: u64| #[trigger] m.resident().contains_key(vpn) implies
        fa2.allocated_ppn(m.resident()[vpn].0) by {
        assert(fa1.allocated_ppn(m.resident()[vpn].0));
    }
}

/// Ownership transfers to a mapping whose books changed only as stated.
proof fn lemma_owned_same_tables(m1: Mapping, m2: Mapping, fa: FrameAllocator)
    requires
        m1.owned_by(fa),
        m2.root_table.ppn == m1.root_table.ppn,
        m2.mid_tables@ == m1.mid_tables@,
        m2.leaf_tables@.len() == m1.leaf_tables@.len(),
        forall|i: int|
            0 <= i < m1.leaf_tables@.len()
                ==> (#[trigger] m2.leaf_tables@[i]).ppn == m1.leaf_tables@[i].ppn,
        forall|vpn: u64|
            #[trigger] m2.resident().contains_key(vpn)
                ==> m1.resident().contains_key(vpn)
                    && m2.resident()[vpn].0 == m1.resident()[vpn].0,
    ensures
        m2.owned_by(fa),
{
    assert forall|i: int| 0 <= i < m2.leaf_tables@.len() implies
        fa.allocated_ppn((#[trigger] m2.leaf_tables@[i]).ppn) by {
        assert(fa.allocated_ppn(m1.leaf_tables@[i].ppn));
    }
    assert forall|vpn: u64| #[trigger] m2.resident().contains_key(vpn) implies
        fa.allocated_ppn(m2.resident()[vpn].0) by {
        assert(fa.allocated_ppn(m1.resident()[vpn].0));
    }
}

/// Well-formedness carries over to a mapping with the same tables and books.
proof fn lemma_wf_same_views(a: Mapping, b: Mapping)
    requires
        a.wf(),
        b.root_table == a.root_table,
        b.mid_tables@ == a.mid_tables@,
        b.leaf_tables@ == a.leaf_tables@,
        b.root_ppn == a.root_ppn,
        b.mapped_pairs == a.mapped_pairs,
        swap_map_view(b.swapped_pages) == swap_map_view(a.swapped_pages),
    ensures
        b.wf(),
{
    assert(b.resident() == a.resident());
    assert(b.swapped() == a.swapped());
    assert forall|i: int| 0 <= i < b.mid_tables@.len() implies
        (#[trigger] b.mid_tables@[i]).wf() by {
        assert(b.mid_tables@[i] == a.mid_tables@[i]);
    }
    assert forall|i: int| 0 <= i < b.leaf_tables@.len() implies
        (#[trigger] b.leaf_tables@[i]).wf() by {
        assert(b.leaf_tables@[i] == a.leaf_tables@[i]);
    }
    assert(b.wf_tables());
    assert forall|w: u64| b.pte_of(w) == a.pte_of(w) by {}
    assert forall|w: u64| #[trigger] b.resident().contains_key(w) implies {
        &&& w < VPN_LIMIT
        &&& spec_valid(b.pte_of(w))
        &&& spec_ppn(b.pte_of(w)) == b.resident()[w].0
        &&& spec_flags(b.pte_of(w)) / 2 > 0
        &&& b.resident()[w].0 < crate::addr::PPN_LIMIT
        &&& b.resident()[w].1.len() == PAGE_SIZE
        &&& !b.swapped().contains_key(w)
    } by {
        assert(a.resident().contains_key(w));
        assert(b.pte_of(w) == a.pte_of(w));
    }
    assert forall|w: u64| #[trigger] b.swapped().contains_key(w) implies {
        &&& w < VPN_LIMIT
        &&& b.pte_of(w) != 0
        &&& !spec_valid(b.pte_of(w))
        &&& spec_ppn(b.pte_of(w)) == 0
        &&& b.swapped()[w] < SWAP_FILE_CAPACITY
    } by {
        assert(a.swapped().contains_key(w));
        assert(b.pte_of(w) == a.pte_of(w));
    }
}

/// A mapping with the same swapped-out book stays consistent with a store.
proof fn lemma_consistent_same_swapped(a: Mapping, b: Mapping, store: SwapStore)
    requires
        a.consistent_with(store),
        b.swapped_pages == a.swapped_pages,
    ensures
        b.consistent_with(store),
{
    assert forall|w: u64| #[trigger] b.swapped().contains_key(w) implies
        store.slot_allocated(b.swapped()[w]) && store.written(b.swapped()[w] as int) by {
        assert(a.swapped().contains_key(w));
    }
}

/// The same, over equal swapped views rather than equal fields.
proof fn lemma_consistent_same_swapped2(a: Mapping, b: Mapping, store: SwapStore)
    requires
        a.consistent_with(store),
        swap_map_view(b.swapped_pages) == swap_map_view(a.swapped_pages),
    ensures
        b.consistent_with(store),
{
    assert forall|w: u64| #[trigger] b.swapped().contains_key(w) implies
        store.slot_allocated(b.swapped()[w]) && store.written(b.swapped()[w] as int) by {
        assert(a.swapped().contains_key(w));
    }
}

/// The initialization bytes handed to [`Mapping::map`], as a sequence.
pub open spec fn data_view(d: Option<&Vec<u8>>) -> Option<Seq<u8>> {
    match d {
        Some(v) => Some(v@),
        None => None,
    }
}

/// The bytes page `vpn` receives when a segment is initialized with `init`:
/// its slice of the data, or all zero without data.
pub open spec fn spec_init_page(seg: Segment, init: Option<Seq<u8>>, vpn: int) -> Seq<u8> {
    match init {
        Some(d) => {
            if d.len() > 0 {
                Seq::new(PAGE_SIZE as nat, |k: int| spec_page_byte(seg, d, vpn, k))
            } else {
                zero_page_seq()
            }
        }
        None => zero_page_seq(),
    }
}

} // verus!
