//! The ready-queue scheduler.
//!
//! Round-robin: `get_next` rotates the front thread to the back and returns
//! it, so with a fixed set of ready threads each one runs again only after
//! every other has had a turn.  That fairness law is stated and proved in
//! [`lemma_round_robin_fairness`].

use vstd::prelude::*;
use std::collections::VecDeque;

verus! {

/// A round-robin ready queue of thread ids.
pub struct RoundRobinScheduler {
    /// The ready threads, front runs next.
    pub queue: VecDeque<i64>,
}

impl RoundRobinScheduler {
    /// No thread queues twice.
    pub open spec fn inv(&self) -> bool {
        forall|k1: int, k2: int|
            0 <= k1 < k2 < self.queue@.len() ==> self.queue@[k1] != self.queue@[k2]
    }

    /// An empty ready queue.
    pub fn new() -> (r: RoundRobinScheduler)
        ensures
            r.inv(),
            r.queue@ == Seq::<i64>::empty(),
    {
        RoundRobinScheduler { queue: VecDeque::new() }
    }

    /// Queue a thread at the back.
    pub fn add_thread(&mut self, id: i64)
        requires
            old(self).inv(),
            !old(self).queue@.contains(id),
        ensures
            final(self).inv(),
            final(self).queue@ == old(self).queue@.push(id),
    {
        self.queue.push_back(id);
        proof {
            assert forall|k1: int, k2: int|
                0 <= k1 < k2 < self.queue@.len()
                    implies self.queue@[k1] != self.queue@[k2] by {
                if k2 == self.queue@.len() - 1 {
                    assert(old(self).queue@.contains(old(self).queue@[k1])) by {
                        assert(old(self).queue@[k1] == self.queue@[k1]);
                    }
                }
            }
        }
    }

    /// Take a thread out of the queue, wherever it stands; the others keep
    /// their relative order.
    #[verifier::loop_isolation(false)]
    pub fn remove_thread(&mut self, id: i64)
        requires
            old(self).inv(),
        ensures
            final(self).inv(),
            !final(self).queue@.contains(id),
            forall|w: i64|
                w != id ==> final(self).queue@.contains(w) == old(self).queue@.contains(w),
            final(self).queue@ == spec_without(old(self).queue@, id),
    {
        let mut k: usize = 0;
        let ghost orig = self.queue@;
        while k < self.queue.len()
            invariant
                self.inv(),
                self.queue@ == orig,
                k <= orig.len(),
                forall|j: int| 0 <= j < k ==> orig[j] != id,
            decreases orig.len() - k,
        {
            if self.queue[k] == id {
                self.queue.remove(k);
                proof {
                    let news = self.queue@;
                    assert(news == orig.subrange(0, k as int)
                        + orig.subrange(k + 1, orig.len() as int));
                    assert(orig.contains(id)) by {
                        assert(orig[k as int] == id);
                    }
                    assert(orig.index_of(id) == k as int) by {
                        let i = orig.index_of(id);
                        assert(0 <= i < orig.len() && orig[i] == id);
                        if i != k {
                            assert(orig[i] != orig[k as int]);
                        }
                    }
                    assert(news =~= spec_without(orig, id));
                    assert forall|k1: int, k2: int|
                        0 <= k1 < k2 < news.len()
                            implies news[k1] != news[k2] by {
                        let m1: int = if k1 < k { k1 } else { k1 + 1 };
                        let m2: int = if k2 < k { k2 } else { k2 + 1 };
                        assert(news[k1] == orig[m1] && news[k2] == orig[m2]);
                    }
                    assert(!news.contains(id)) by {
                        if news.contains(id) {
                            let j = choose|j: int| 0 <= j < news.len() && news[j] == id;
                            let m: int = if j < k { j } else { j + 1 };
                            assert(orig[m] == id);
                            assert(m != k ==> orig[m] != orig[k as int]);
                        }
                    }
                    assert forall|w: i64| w != id implies
                        news.contains(w) == orig.contains(w) by {
                        if news.contains(w) {
                            let j = choose|j: int| 0 <= j < news.len() && news[j] == w;
                            let m: int = if j < k { j } else { j + 1 };
                            assert(orig[m] == w);
                        }
                        if orig.contains(w) {
                            let m = choose|m: int| 0 <= m < orig.len() && orig[m] == w;
                            assert(m != k);
                            if m < k {
                                assert(news[m] == w);
                            } else {
                                assert(news[m - 1] == w);
                            }
                        }
                    }
                }
                return;
            }
            k = k + 1;
        }
        proof {
            if self.queue@.contains(id) {
                let j = choose|j: int| 0 <= j < orig.len() && orig[j] == id;
                assert(orig[j] != id);
            }
        }
    }

    /// Hand out the next thread to run: the front one, rotated to the back
    /// so it runs again only after every other ready thread.
    pub fn get_next(&mut self) -> (r: Option<i64>)
        requires
            old(self).inv(),
        ensures
            final(self).inv(),
            r is None <==> old(self).queue@.len() == 0,
            r is None ==> final(self).queue@ == old(self).queue@,
            r matches Some(id) ==> {
                &&& id == old(self).queue@[0]
                &&& final(self).queue@ == spec_rotate(old(self).queue@)
            },
    {
        match self.queue.pop_front() {
            Some(id) => {
                let ghost popped = self.queue@;
                self.queue.push_back(id);
                proof {
                    assert(self.queue@ == popped.push(id));
                    assert(self.queue@ =~= spec_rotate(old(self).queue@));
                    assert forall|k1: int, k2: int|
                        0 <= k1 < k2 < self.queue@.len()
                            implies self.queue@[k1] != self.queue@[k2] by {
                        let m1: int = if k2 == self.queue@.len() - 1 { 0 } else { k2 + 1 };
                        assert(old(self).queue@[k1 + 1] == self.queue@[k1]);
                    }
                }
                Some(id)
            }
            None => None,
        }
    }
}

/// A queue with its (single) occurrence of `id` taken out; unchanged when
/// `id` does not queue.
pub open spec fn spec_without(q: Seq<i64>, id: i64) -> Seq<i64> {
    if q.contains(id) {
        q.remove(q.index_of(id))
    } else {
        q
    }
}

/// One scheduling decision: the front thread moves to the back.
pub open spec fn spec_rotate(q: Seq<i64>) -> Seq<i64>
    recommends
        q.len() > 0,
{
    q.subrange(1, q.len() as int).push(q[0])
}

/// Rotation shuffles the queue but keeps its members.
pub proof fn lemma_rotate_contains(q: Seq<i64>, x: i64)
    requires
        q.len() > 0,
    ensures
        spec_rotate(q).contains(x) == q.contains(x),
{
    let r = spec_rotate(q);
    if q.contains(x) {
        let k = choose|k: int| 0 <= k < q.len() && q[k] == x;
        if k == 0 {
            assert(r[q.len() - 1] == x);
        } else {
            assert(r[k - 1] == x);
        }
    }
    if r.contains(x) {
        let k = choose|k: int| 0 <= k < r.len() && r[k] == x;
        if k == r.len() - 1 {
            assert(q[0] == x);
        } else {
            assert(q[k + 1] == x);
        }
    }
}

/// The queue after `n` scheduling decisions.
pub open spec fn spec_rotate_n(q: Seq<i64>, n: nat) -> Seq<i64>
    decreases n,
{
    if n == 0 {
        q
    } else {
        spec_rotate(spec_rotate_n(q, (n - 1) as nat))
    }
}

/// After `k` decisions the queue is the original split at `k`.
proof fn lemma_rotate_n_shape(q: Seq<i64>, k: nat)
    requires
        k <= q.len(),
    ensures
        spec_rotate_n(q, k) == q.subrange(k as int, q.len() as int) + q.subrange(0, k as int),
    decreases k,
{
    if k == 0 {
        assert(spec_rotate_n(q, 0) =~= q.subrange(0, q.len() as int) + q.subrange(0, 0));
    } else {
        lemma_rotate_n_shape(q, (k - 1) as nat);
        let prev = spec_rotate_n(q, (k - 1) as nat);
        assert(prev == q.subrange(k - 1, q.len() as int) + q.subrange(0, k - 1));
        assert(prev.len() == q.len());
        assert(spec_rotate_n(q, k) == spec_rotate(prev));
        assert(spec_rotate(prev)
            =~= q.subrange(k as int, q.len() as int) + q.subrange(0, k as int));
    }
}

/// Round-robin fairness: starting from ready queue `q`, the thread at
/// position `k` is exactly the one handed out by the `k`-th of the next
/// scheduling decisions, so with `n` always-ready threads every thread runs
/// at least once in any `n` consecutive decisions.
pub proof fn lemma_round_robin_fairness(q: Seq<i64>, k: int)
    requires
        0 <= k < q.len(),
    ensures
        spec_rotate_n(q, k as nat).len() == q.len(),
        spec_rotate_n(q, k as nat)[0] == q[k],
{
    lemma_rotate_n_shape(q, k as nat);
}

/// The scheduler the kernel uses.
pub type SchedulerImpl = RoundRobinScheduler;

} // verus!
