//! Page-replacement policies.
//!
//! A [`Swapper`] keeps the resident framed pages of one address space, at
//! most `quota` of them.  The contracts state what each operation does to
//! the resident map from virtual page numbers to frame contents, and to the
//! policy's eviction order: `pop` evicts the order's front, `push` appends
//! at the back.  How the order evolves between calls is the policy's own
//! business; [`FIFOSwapper`] keeps plain insertion order.

use vstd::prelude::*;
use std::collections::VecDeque;
use crate::collections::{
    frame_map_clear, frame_map_get, frame_map_insert, frame_map_len, frame_map_new,
    frame_map_remove, frame_map_view, FrameMap,
};
use crate::frame::FrameTracker;

verus! {

/// The policy deciding which framed pages stay resident.
pub trait Swapper: Sized {
    /// Internal consistency.
    spec fn inv(&self) -> bool;

    /// The largest number of resident pages allowed.
    spec fn quota_spec(&self) -> int;

    /// The resident pages: each virtual page number maps to the page number
    /// and contents of the frame holding it.
    spec fn resident(&self) -> Map<u64, (u64, Seq<u8>)>;

    /// The eviction order over the resident pages: the front goes first.
    spec fn order(&self) -> Seq<u64>;

    /// Create a policy allowing `quota` resident pages.
    fn new(quota: usize) -> (r: Self)
        ensures
            r.inv(),
            r.quota_spec() == quota,
            r.resident() == Map::<u64, (u64, Seq<u8>)>::empty(),
            r.order() == Seq::<u64>::empty(),
    ;

    /// Whether the quota is reached.
    fn full(&self) -> (r: bool)
        requires
            self.inv(),
        ensures
            r <==> self.resident().dom().len() == self.quota_spec(),
    ;

    /// Take the eviction order's front pair out; `None` exactly when
    /// nothing is resident.
    fn pop(&mut self) -> (r: Option<(u64, FrameTracker)>)
        requires
            old(self).inv(),
        ensures
            final(self).inv(),
            final(self).quota_spec() == old(self).quota_spec(),
            r is None <==> old(self).resident().dom().len() == 0,
            r is None <==> old(self).order().len() == 0,
            r is None ==> final(self).resident() == old(self).resident()
                && final(self).order() == old(self).order(),
            r matches Some(p) ==> {
                &&& p.0 == old(self).order()[0]
                &&& final(self).order()
                    == old(self).order().subrange(1, old(self).order().len() as int)
                &&& old(self).resident().contains_key(p.0)
                &&& p.1.ppn == old(self).resident()[p.0].0
                &&& p.1.data@ == old(self).resident()[p.0].1
                &&& final(self).resident() == old(self).resident().remove(p.0)
            },
    ;

    /// Record a resident pair at the back of the eviction order.  Never
    /// called with the quota reached or the page already resident.
    fn push(&mut self, vpn: u64, frame: FrameTracker)
        requires
            old(self).inv(),
            old(self).resident().dom().len() < old(self).quota_spec(),
            !old(self).resident().contains_key(vpn),
        ensures
            final(self).inv(),
            final(self).quota_spec() == old(self).quota_spec(),
            final(self).resident()
                == old(self).resident().insert(vpn, (frame.ppn, frame.data@)),
            final(self).order() == old(self).order().push(vpn),
    ;

    /// The frame holding `vpn`, if it is resident.
    fn find(&self, vpn: u64) -> (r: Option<&FrameTracker>)
        requires
            self.inv(),
        ensures
            r matches Some(f) ==> self.resident().contains_key(vpn)
                && f.ppn == self.resident()[vpn].0
                && f.data@ == self.resident()[vpn].1,
            r is None ==> !self.resident().contains_key(vpn),
    ;

    /// Keep only the pages outside `start_vpn..end_vpn`, in their old
    /// relative order; the removed pairs come back so the caller can
    /// release their frames.
    fn retain(&mut self, start_vpn: u64, end_vpn: u64) -> (removed: Vec<(u64, FrameTracker)>)
        requires
            old(self).inv(),
        ensures
            final(self).inv(),
            final(self).quota_spec() == old(self).quota_spec(),
            final(self).order()
                == old(self).order().filter(|v: u64| !(start_vpn <= v < end_vpn)),
            forall|w: u64|
                final(self).resident().contains_key(w)
                    <==> (old(self).resident().contains_key(w) && !(start_vpn <= w < end_vpn)),
            forall|w: u64|
                final(self).resident().contains_key(w)
                    ==> final(self).resident()[w] == old(self).resident()[w],
            forall|k: int| 0 <= k < removed@.len() ==> {
                &&& old(self).resident().contains_key(#[trigger] removed@[k].0)
                &&& start_vpn <= removed@[k].0 < end_vpn
                &&& removed@[k].1.ppn == old(self).resident()[removed@[k].0].0
                &&& removed@[k].1.data@ == old(self).resident()[removed@[k].0].1
            },
            forall|k1: int, k2: int|
                0 <= k1 < k2 < removed@.len() ==> removed@[k1].0 != removed@[k2].0,
            forall|w: u64|
                old(self).resident().contains_key(w) && start_vpn <= w < end_vpn
                    ==> exists|k: int| 0 <= k < removed@.len() && removed@[k].0 == w,
    ;
}

/// First-in, first-out replacement: a queue records insertion order and the
/// front is evicted first.
pub struct FIFOSwapper {
    /// The resident frames, keyed by virtual page number.
    pub entries: FrameMap,
    /// The resident virtual page numbers in insertion order.
    pub queue: VecDeque<u64>,
    /// The largest number of resident pages allowed.
    pub quota: usize,
}

impl FIFOSwapper {
    /// The queue holds each resident page exactly once.
    pub open spec fn queue_inv(&self) -> bool {
        &&& frame_map_view(self.entries).dom().finite()
        &&& forall|k: int|
                0 <= k < self.queue@.len()
                    ==> frame_map_view(self.entries).contains_key(#[trigger] self.queue@[k])
        &&& forall|w: u64|
                frame_map_view(self.entries).contains_key(w) ==> self.queue@.contains(w)
        &&& forall|k1: int, k2: int|
                0 <= k1 < k2 < self.queue@.len() ==> self.queue@[k1] != self.queue@[k2]
    }
}

impl Swapper for FIFOSwapper {
    open spec fn inv(&self) -> bool {
        self.queue_inv()
    }

    open spec fn quota_spec(&self) -> int {
        self.quota as int
    }

    open spec fn resident(&self) -> Map<u64, (u64, Seq<u8>)> {
        frame_map_view(self.entries)
    }

    open spec fn order(&self) -> Seq<u64> {
        self.queue@
    }

    fn new(quota: usize) -> Self {
        let mut entries = frame_map_new();
        frame_map_clear(&mut entries);
        proof {
            assert(frame_map_view(entries) =~= Map::<u64, (u64, Seq<u8>)>::empty());
        }
        FIFOSwapper { entries, queue: VecDeque::new(), quota }
    }

    fn full(&self) -> bool {
        frame_map_len(&self.entries) == self.quota
    }

    fn pop(&mut self) -> Option<(u64, FrameTracker)> {
        proof {
            if self.queue@.len() == 0 && frame_map_view(self.entries).dom().len() != 0 {
                let w = frame_map_view(self.entries).dom().choose();
                assert(frame_map_view(self.entries).dom().contains(w));
                assert(self.queue@.contains(w));
            }
            if self.queue@.len() > 0 {
                assert(frame_map_view(self.entries).dom().contains(self.queue@[0]));
                assert(frame_map_view(self.entries).dom().len() != 0);
            }
        }
        match self.queue.pop_front() {
            Some(vpn) => {
                match frame_map_remove(&mut self.entries, vpn) {
                    Some(frame) => {
                        proof {
                            let pre = old(self).queue@;
                            assert forall|w: u64|
                                frame_map_view(self.entries).contains_key(w)
                                    implies self.queue@.contains(w) by {
                                assert(pre.contains(w));
                                let k = choose|k: int| 0 <= k < pre.len() && pre[k] == w;
                                assert(k != 0);
                                assert(self.queue@[k - 1] == w);
                            }
                        }
                        Some((vpn, frame))
                    }
                    None => {
                        proof {
                            assert(false);
                        }
                        None
                    }
                }
            }
            None => None,
        }
    }

    fn push(&mut self, vpn: u64, frame: FrameTracker) {
        self.queue.push_back(vpn);
        frame_map_insert(&mut self.entries, vpn, frame);
        proof {
            assert forall|w: u64|
                frame_map_view(self.entries).contains_key(w)
                    implies self.queue@.contains(w) by {
                if w == vpn {
                    assert(self.queue@[self.queue@.len() - 1] == vpn);
                } else {
                    assert(old(self).queue@.contains(w));
                    let k = choose|k: int|
                        0 <= k < old(self).queue@.len() && old(self).queue@[k] == w;
                    assert(self.queue@[k] == w);
                }
            }
            assert forall|k1: int, k2: int|
                0 <= k1 < k2 < self.queue@.len()
                    implies self.queue@[k1] != self.queue@[k2] by {
                if k2 == self.queue@.len() - 1 {
                    assert(frame_map_view(old(self).entries).contains_key(self.queue@[k1]));
                }
            }
        }
    }

    fn find(&self, vpn: u64) -> Option<&FrameTracker> {
        frame_map_get(&self.entries, vpn)
    }

    #[verifier::loop_isolation(false)]
    #[verifier::rlimit(100)]
    fn retain(&mut self, start_vpn: u64, end_vpn: u64) -> Vec<(u64, FrameTracker)> {
        let ghost orig = *self;
        let ghost oq = self.queue@;
        let ghost keep = |v: u64| !(start_vpn <= v < end_vpn);
        let mut kept: VecDeque<u64> = VecDeque::new();
        let mut dropped: Vec<u64> = Vec::new();
        let mut k: usize = 0;
        proof {
            lemma_filter_empty(oq.subrange(0, 0), keep);
        }
        while k < self.queue.len()
            invariant
                *self == orig,
                k <= oq.len(),
                kept@ == oq.subrange(0, k as int).filter(keep),
                forall|j: int|
                    0 <= j < kept@.len()
                        ==> oq.contains(#[trigger] kept@[j])
                            && !(start_vpn <= kept@[j] < end_vpn),
                forall|j: int|
                    0 <= j < dropped@.len()
                        ==> oq.contains(#[trigger] dropped@[j])
                            && start_vpn <= dropped@[j] < end_vpn,
                forall|i: int| 0 <= i < k && !(start_vpn <= oq[i] < end_vpn)
                    ==> kept@.contains(#[trigger] oq[i]),
                forall|i: int| 0 <= i < k && start_vpn <= oq[i] < end_vpn
                    ==> dropped@.contains(#[trigger] oq[i]),
                forall|i: int|
                    k <= i < oq.len()
                        ==> !kept@.contains(#[trigger] oq[i]) && !dropped@.contains(oq[i]),
                forall|j1: int, j2: int|
                    0 <= j1 < j2 < kept@.len() ==> kept@[j1] != kept@[j2],
                forall|j1: int, j2: int|
                    0 <= j1 < j2 < dropped@.len() ==> dropped@[j1] != dropped@[j2],
            decreases oq.len() - k,
        {
            let vpn = self.queue[k];
            proof {
                assert(oq[k as int] == vpn);
                assert(oq.contains(vpn));
            }
            if start_vpn <= vpn && vpn < end_vpn {
                let ghost pre = dropped@;
                dropped.push(vpn);
                proof {
                    assert(oq.subrange(0, k + 1) =~= oq.subrange(0, k as int).push(vpn));
                    lemma_filter_push(oq.subrange(0, k as int), vpn, keep);
                    assert(dropped@ == pre.push(vpn));
                    assert(!pre.contains(vpn));
                    lemma_push_facts(pre, vpn);
                    assert forall|i: int|
                        k + 1 <= i < oq.len()
                            implies !kept@.contains(#[trigger] oq[i])
                                && !dropped@.contains(oq[i]) by {
                        assert(!pre.contains(oq[i]));
                        assert(oq[i] != vpn);
                    }
                }
            } else {
                let ghost pre = kept@;
                kept.push_back(vpn);
                proof {
                    assert(oq.subrange(0, k + 1) =~= oq.subrange(0, k as int).push(vpn));
                    lemma_filter_push(oq.subrange(0, k as int), vpn, keep);
                    assert(kept@ == pre.push(vpn));
                    assert(!pre.contains(vpn));
                    lemma_push_facts(pre, vpn);
                    assert forall|i: int|
                        k + 1 <= i < oq.len()
                            implies !kept@.contains(#[trigger] oq[i])
                                && !dropped@.contains(oq[i]) by {
                        assert(!pre.contains(oq[i]));
                        assert(oq[i] != vpn);
                    }
                }
            }
            k = k + 1;
        }
        proof {
            assert(k == oq.len());
            assert(oq.subrange(0, k as int) =~= oq);
            assert(kept@ == oq.filter(keep));
        }
        self.queue = kept;
        let mut removed: Vec<(u64, FrameTracker)> = Vec::new();
        let mut d: usize = 0;
        while d < dropped.len()
            invariant
                self.queue@ == kept@,
                self.quota == orig.quota,
                d <= dropped@.len(),
                removed@.len() == d,
                frame_map_view(self.entries).dom().finite(),
                forall|w: u64| #[trigger] frame_map_view(self.entries).contains_key(w)
                    ==> frame_map_view(orig.entries).contains_key(w)
                        && frame_map_view(self.entries)[w] == frame_map_view(orig.entries)[w],
                forall|w: u64|
                    frame_map_view(orig.entries).contains_key(w)
                        ==> (#[trigger] frame_map_view(self.entries).contains_key(w)
                            <==> !(exists|j: int| 0 <= j < d && dropped@[j] == w)),
                forall|j: int| 0 <= j < d ==> {
                    &&& #[trigger] removed@[j].0 == dropped@[j]
                    &&& frame_map_view(orig.entries).contains_key(dropped@[j])
                    &&& removed@[j].1.ppn == frame_map_view(orig.entries)[dropped@[j]].0
                    &&& removed@[j].1.data@ == frame_map_view(orig.entries)[dropped@[j]].1
                },
            decreases dropped@.len() - d,
        {
            let vpn = dropped[d];
            proof {
                assert(oq.contains(vpn));
                assert(frame_map_view(orig.entries).contains_key(vpn));
                assert(!(exists|j: int| 0 <= j < d && dropped@[j] == vpn));
                assert(frame_map_view(self.entries).contains_key(vpn));
            }
            match frame_map_remove(&mut self.entries, vpn) {
                Some(frame) => {
                    removed.push((vpn, frame));
                }
                None => {
                    proof {
                        assert(false);
                    }
                }
            }
            d = d + 1;
        }
        proof {
            assert forall|w: u64|
                frame_map_view(self.entries).contains_key(w)
                    <==> (orig.resident().contains_key(w) && !(start_vpn <= w < end_vpn)) by {
                if frame_map_view(orig.entries).contains_key(w) {
                    assert(oq.contains(w));
                    let i = choose|i: int| 0 <= i < oq.len() && oq[i] == w;
                    if start_vpn <= w < end_vpn {
                        assert(dropped@.contains(w));
                        let j = choose|j: int| 0 <= j < dropped@.len() && dropped@[j] == w;
                        assert(!frame_map_view(self.entries).contains_key(w));
                    } else {
                        assert forall|j: int| 0 <= j < dropped@.len()
                            implies dropped@[j] != w by {
                            assert(start_vpn <= dropped@[j] < end_vpn);
                        }
                        assert(frame_map_view(self.entries).contains_key(w));
                    }
                }
            }
            assert forall|w: u64|
                frame_map_view(self.entries).contains_key(w)
                    implies self.queue@.contains(w) by {
                assert(frame_map_view(orig.entries).contains_key(w));
                assert(oq.contains(w));
                let i = choose|i: int| 0 <= i < oq.len() && oq[i] == w;
                if start_vpn <= w < end_vpn {
                    assert(dropped@.contains(w));
                    let j0 = choose|j0: int| 0 <= j0 < dropped@.len() && dropped@[j0] == w;
                    assert(!frame_map_view(self.entries).contains_key(w));
                }
                assert(kept@.contains(w));
            }
            assert forall|k2: int|
                0 <= k2 < self.queue@.len()
                    implies frame_map_view(self.entries)
                        .contains_key(#[trigger] self.queue@[k2]) by {
                let w = self.queue@[k2];
                assert(oq.contains(w) && !(start_vpn <= w < end_vpn));
                assert(frame_map_view(orig.entries).contains_key(w));
                assert forall|j: int| 0 <= j < dropped@.len()
                    implies dropped@[j] != w by {
                    assert(start_vpn <= dropped@[j] < end_vpn);
                }
            }
            assert forall|w: u64|
                orig.resident().contains_key(w) && start_vpn <= w < end_vpn
                    implies exists|k3: int|
                        0 <= k3 < removed@.len() && removed@[k3].0 == w by {
                assert(oq.contains(w));
                let i = choose|i: int| 0 <= i < oq.len() && oq[i] == w;
                assert(dropped@.contains(w));
                let j = choose|j: int| 0 <= j < dropped@.len() && dropped@[j] == w;
                assert(removed@[j].0 == w);
            }
        }
        removed
    }
}

/// Pushing a fresh value onto a sequence keeps the others and their places.
proof fn lemma_push_facts(s: Seq<u64>, x: u64)
    ensures
        forall|w: u64| #[trigger] s.push(x).contains(w) <==> s.contains(w) || w == x,
        forall|j: int| 0 <= j < s.len() ==> s.push(x)[j] == s[j],
        s.push(x)[s.len() as int] == x,
{
    assert forall|w: u64| #[trigger] s.push(x).contains(w)
        implies s.contains(w) || w == x by {
        let j = choose|j: int| 0 <= j < s.push(x).len() && s.push(x)[j] == w;
        if j < s.len() {
            assert(s[j] == w);
        }
    }
    assert forall|w: u64| s.contains(w) || w == x
        implies #[trigger] s.push(x).contains(w) by {
        if s.contains(w) {
            let j = choose|j: int| 0 <= j < s.len() && s[j] == w;
            assert(s.push(x)[j] == w);
        } else {
            assert(s.push(x)[s.len() as int] == w);
        }
    }
}

/// An empty sequence filters to itself.
proof fn lemma_filter_empty(s: Seq<u64>, pred: spec_fn(u64) -> bool)
    requires
        s.len() == 0,
    ensures
        s.filter(pred) == s,
{
    reveal(Seq::filter);
}

/// Filtering a sequence extended by one element keeps the filtered prefix
/// and appends the element exactly when it passes.
proof fn lemma_filter_push(s: Seq<u64>, x: u64, pred: spec_fn(u64) -> bool)
    ensures
        s.push(x).filter(pred) == if pred(x) {
            s.filter(pred).push(x)
        } else {
            s.filter(pred)
        },
{
    reveal(Seq::filter);
    assert(s.push(x).drop_last() =~= s);
    assert(s.push(x).last() == x);
}

/// The replacement policy the kernel uses.
pub type SwapperImpl = FIFOSwapper;

} // verus!
