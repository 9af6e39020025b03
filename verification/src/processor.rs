//! The processor: the running thread, the ready queue, the sleeping set and
//! the idle thread.
//!
//! Threads live in one pool; the scheduler and the sleeping set refer to
//! them by id.  A suspended thread carries its context; the running thread's
//! context lives at the top of the kernel stack.  When nothing is ready but
//! some thread sleeps, the idle thread runs; when nothing is ready and
//! nothing sleeps, the kernel is done.

use vstd::prelude::*;
use crate::KernelError;
use crate::collections::{
    sleep_set_clear, sleep_set_insert, sleep_set_is_empty, sleep_set_new,
    sleep_set_remove, sleep_set_view, SleepSet,
};
use crate::context::Context;
use crate::config::SATP_MODE_SV39;
use crate::scheduler::{spec_rotate, spec_without, RoundRobinScheduler, SchedulerImpl};
use crate::stack::KernelStack;
use crate::thread::Thread;

verus! {

/// The global execution state of the single hart.
pub struct Processor {
    /// Every live thread, the idle thread included.
    pub threads: Vec<Thread>,
    /// The id of the thread running right now.
    pub current_thread: Option<i64>,
    /// The ready queue.
    pub scheduler: SchedulerImpl,
    /// The ids of the threads waiting to be woken.
    pub sleeping_threads: SleepSet,
    /// The id of the idle thread, which only waits for interrupts.
    pub idle_id: i64,
}

impl Processor {
    /// Whether a thread with this id lives in the pool.
    pub open spec fn has_thread(self, id: i64) -> bool {
        exists|i: int| 0 <= i < self.threads@.len() && self.threads@[i].id == id
    }

    /// The pool thread with this id.
    pub open spec fn thread_of(self, id: i64) -> Thread {
        self.threads@[choose|i: int|
            0 <= i < self.threads@.len() && self.threads@[i].id == id]
    }

    /// Pool ids are distinct; everything the queue, the sleeping set and
    /// the current slot name lives in the pool; every suspended thread that
    /// could be scheduled carries a context.
    pub open spec fn inv(self) -> bool {
        &&& forall|i: int, j: int|
                0 <= i < j < self.threads@.len()
                    ==> self.threads@[i].id != self.threads@[j].id
        &&& forall|i: int| 0 <= i < self.threads@.len() ==> (#[trigger] self.threads@[i]).wf()
        &&& self.scheduler.inv()
        &&& forall|k: int|
                0 <= k < self.scheduler.queue@.len()
                    ==> self.has_thread(#[trigger] self.scheduler.queue@[k])
        &&& forall|k: int|
                0 <= k < self.scheduler.queue@.len()
                    && self.current_thread != Some(#[trigger] self.scheduler.queue@[k])
                    ==> self.thread_of(self.scheduler.queue@[k]).inner.context is Some
        &&& (self.current_thread matches Some(id) ==> self.has_thread(id))
        &&& self.has_thread(self.idle_id)
        &&& !self.scheduler.queue@.contains(self.idle_id)
        &&& (self.current_thread != Some(self.idle_id)
            ==> self.thread_of(self.idle_id).inner.context is Some)
        &&& forall|id: i64|
                sleep_set_view(self.sleeping_threads).contains(id)
                    ==> self.has_thread(id)
    }

    /// Find a thread's slot in the pool.
    pub fn find_index(&self, id: i64) -> (r: Option<usize>)
        ensures
            r matches Some(i) ==> i < self.threads@.len() && self.threads@[i as int].id == id,
            r is None ==> !self.has_thread(id),
    {
        let mut i: usize = 0;
        while i < self.threads.len()
            invariant
                i <= self.threads@.len(),
                forall|j: int| 0 <= j < i ==> self.threads@[j].id != id,
            decreases self.threads@.len() - i,
        {
            if self.threads[i].id == id {
                return Some(i);
            }
            i = i + 1;
        }
        proof {
            if self.has_thread(id) {
                let j = choose|j: int|
                    0 <= j < self.threads@.len() && self.threads@[j].id == id;
                assert(self.threads@[j].id != id);
            }
        }
        None
    }

    /// Create a processor around its idle thread.
    pub fn new(idle_thread: Thread) -> (r: Processor)
        requires
            idle_thread.wf(),
            idle_thread.inner.context is Some,
        ensures
            r.inv(),
            r.current_thread is None,
            r.scheduler.queue@ == Seq::<i64>::empty(),
            sleep_set_view(r.sleeping_threads) == Set::<i64>::empty(),
            r.idle_id == idle_thread.id,
    {
        let idle_id = idle_thread.id;
        let mut threads: Vec<Thread> = Vec::new();
        threads.push(idle_thread);
        let mut sleeping_threads = sleep_set_new();
        sleep_set_clear(&mut sleeping_threads);
        proof {
            assert(sleep_set_view(sleeping_threads)
                =~= Set::<i64>::empty());
        }
        let r = Processor {
            threads,
            current_thread: None,
            scheduler: RoundRobinScheduler::new(),
            sleeping_threads,
            idle_id,
        };
        proof {
            assert(r.threads@[0].id == idle_id);
            assert(r.has_thread(idle_id));
            assert(r.thread_of(idle_id) == r.threads@[0]);
        }
        r
    }

    /// The id of the running thread.
    pub fn current_thread(&self) -> (r: i64)
        requires
            self.current_thread is Some,
        ensures
            Some(r) == self.current_thread,
    {
        match self.current_thread {
            Some(id) => id,
            None => {
                proof {
                    assert(false);
                }
                0
            }
        }
    }

    /// Put a fresh thread into the pool and the ready queue.
    pub fn add_thread(&mut self, thread: Thread)
        requires
            old(self).inv(),
            thread.wf(),
            thread.inner.context is Some,
            !old(self).has_thread(thread.id),
            thread.id != old(self).idle_id,
        ensures
            final(self).inv(),
            final(self).has_thread(thread.id),
            final(self).current_thread == old(self).current_thread,
            final(self).idle_id == old(self).idle_id,
            final(self).scheduler.queue@ == old(self).scheduler.queue@.push(thread.id),
            sleep_set_view(final(self).sleeping_threads)
                == sleep_set_view(old(self).sleeping_threads),
            forall|id: i64|
                old(self).has_thread(id) ==> final(self).has_thread(id)
                    && final(self).thread_of(id) == old(self).thread_of(id),
    {
        let ghost pre = *self;
        let id = thread.id;
        proof {
            if pre.scheduler.queue@.contains(id) {
                let k = choose|k: int|
                    0 <= k < pre.scheduler.queue@.len() && pre.scheduler.queue@[k] == id;
                assert(pre.has_thread(id));
            }
        }
        self.threads.push(thread);
        self.scheduler.add_thread(id);
        proof {
            let news = *self;
            assert(news.threads@ == pre.threads@.push(thread));
            assert forall|w: i64| pre.has_thread(w) implies news.has_thread(w)
                && news.thread_of(w) == pre.thread_of(w) by {
                let i = choose|i: int|
                    0 <= i < pre.threads@.len() && pre.threads@[i].id == w;
                assert(news.threads@[i].id == w);
                let j = choose|j: int|
                    0 <= j < news.threads@.len() && news.threads@[j].id == w;
                if j < pre.threads@.len() {
                    assert(pre.threads@[j].id == w);
                } else {
                    assert(news.threads@[j] == thread);
                    assert(pre.threads@[i].id == thread.id);
                }
            }
            assert(news.threads@[news.threads@.len() - 1] == thread);
            assert(news.has_thread(id));
            assert(news.thread_of(id) == thread) by {
                let j = choose|j: int|
                    0 <= j < news.threads@.len() && news.threads@[j].id == id;
                if j < pre.threads@.len() {
                    assert(pre.threads@[j].id == id);
                    assert(pre.has_thread(id));
                }
            }
            assert forall|i: int, j: int|
                0 <= i < j < news.threads@.len()
                    implies news.threads@[i].id != news.threads@[j].id by {
                if j == news.threads@.len() - 1 {
                    assert(pre.threads@[i].id == news.threads@[i].id);
                    if news.threads@[i].id == id {
                        assert(pre.has_thread(id));
                    }
                }
            }
            assert forall|k: int|
                0 <= k < news.scheduler.queue@.len()
                    implies news.has_thread(#[trigger] news.scheduler.queue@[k])
                        && (news.current_thread != Some(news.scheduler.queue@[k])
                            ==> news.thread_of(news.scheduler.queue@[k]).inner.context
                                is Some) by {
                if k < pre.scheduler.queue@.len() {
                    assert(pre.has_thread(pre.scheduler.queue@[k]));
                } else {
                    assert(news.scheduler.queue@[k] == id);
                }
            }
            assert(news.has_thread(news.idle_id));
            assert(news.thread_of(news.idle_id) == pre.thread_of(pre.idle_id));
            assert forall|w: i64|
                sleep_set_view(news.sleeping_threads).contains(w)
                    implies news.has_thread(w) by {
                assert(pre.has_thread(w));
            }
            assert(news.inv());
        }
    }

    /// Store the freshly saved context into the running thread.
    pub fn park_current_thread(&mut self, context: Context)
        requires
            old(self).inv(),
            old(self).current_thread matches Some(id)
                && old(self).thread_of(id).inner.context is None,
            context.wf(),
        ensures
            final(self).inv(),
            final(self).current_thread == old(self).current_thread,
            final(self).idle_id == old(self).idle_id,
            final(self).scheduler.queue@ == old(self).scheduler.queue@,
            sleep_set_view(final(self).sleeping_threads)
                == sleep_set_view(old(self).sleeping_threads),
            old(self).current_thread matches Some(id)
                ==> final(self).has_thread(id)
                    && final(self).thread_of(id).inner.context == Some(context),
            forall|w: i64|
                old(self).has_thread(w) && Some(w) != old(self).current_thread
                    ==> final(self).has_thread(w)
                        && final(self).thread_of(w) == old(self).thread_of(w),
    {
        let ghost pre = *self;
        let id = self.current_thread();
        let index = match self.find_index(id) {
            Some(i) => i,
            None => {
                proof {
                    assert(false);
                }
                0
            }
        };
        proof {
            assert(pre.thread_of(id) == pre.threads@[index as int]);
        }
        self.threads[index].park(context);
        proof {
            let news = *self;
            assert(news.threads@
                == pre.threads@.update(index as int, news.threads@[index as int]));
            assert(news.threads@[index as int].id == id);
            assert forall|w: i64| pre.has_thread(w) implies news.has_thread(w) by {
                let i = choose|i: int|
                    0 <= i < pre.threads@.len() && pre.threads@[i].id == w;
                assert(news.threads@[i].id == w);
            }
            assert forall|w: i64|
                pre.has_thread(w) && w != id
                    implies news.thread_of(w) == pre.thread_of(w) by {
                let i = choose|i: int|
                    0 <= i < pre.threads@.len() && pre.threads@[i].id == w;
                assert(i != index);
                assert(news.threads@[i] == pre.threads@[i]);
                let j = choose|j: int|
                    0 <= j < news.threads@.len() && news.threads@[j].id == w;
                assert(j != index);
                assert(pre.threads@[j].id == w);
            }
            assert(news.thread_of(id) == news.threads@[index as int]) by {
                let j = choose|j: int|
                    0 <= j < news.threads@.len() && news.threads@[j].id == id;
                if j != index {
                    assert(pre.threads@[j].id == id);
                }
            }
            assert(news.inv()) by {
                assert forall|k: int|
                    0 <= k < news.scheduler.queue@.len()
                        && news.current_thread != Some(#[trigger] news.scheduler.queue@[k])
                        implies news.thread_of(news.scheduler.queue@[k]).inner.context
                            is Some by {
                    assert(news.scheduler.queue@[k] != id);
                    assert(pre.has_thread(news.scheduler.queue@[k]));
                }
                assert forall|w: i64|
                    sleep_set_view(news.sleeping_threads).contains(w)
                        implies news.has_thread(w) by {
                    assert(pre.has_thread(w));
                }
            }
        }
    }

    /// Move the running thread out of the ready queue into the sleeping
    /// set and mark it sleeping.
    pub fn sleep_current_thread(&mut self)
        requires
            old(self).inv(),
            old(self).current_thread is Some,
        ensures
            final(self).inv(),
            final(self).current_thread == old(self).current_thread,
            final(self).idle_id == old(self).idle_id,
            old(self).current_thread matches Some(id) ==> {
                &&& !final(self).scheduler.queue@.contains(id)
                &&& final(self).scheduler.queue@
                    == spec_without(old(self).scheduler.queue@, id)
                &&& sleep_set_view(final(self).sleeping_threads)
                    == sleep_set_view(old(self).sleeping_threads).insert(id)
                &&& final(self).has_thread(id)
                &&& final(self).thread_of(id).inner.sleeping == true
                &&& final(self).thread_of(id).inner.context
                    == old(self).thread_of(id).inner.context
                &&& forall|w: i64|
                        old(self).has_thread(w) && w != id
                            ==> final(self).has_thread(w)
                                && final(self).thread_of(w) == old(self).thread_of(w)
            },
    {
        let ghost pre = *self;
        let id = self.current_thread();
        let index = match self.find_index(id) {
            Some(i) => i,
            None => {
                proof {
                    assert(false);
                }
                0
            }
        };
        proof {
            assert(pre.thread_of(id) == pre.threads@[index as int]);
        }
        self.threads[index].inner.sleeping = true;
        self.scheduler.remove_thread(id);
        sleep_set_insert(&mut self.sleeping_threads, id);
        proof {
            let news = *self;
            assert(news.threads@
                == pre.threads@.update(index as int, news.threads@[index as int]));
            assert(news.threads@[index as int].id == id);
            assert(news.thread_of(id) == news.threads@[index as int]) by {
                let j = choose|j: int|
                    0 <= j < news.threads@.len() && news.threads@[j].id == id;
                if j != index {
                    assert(pre.threads@[j].id == id);
                }
            }
            assert forall|w: i64| pre.has_thread(w) implies news.has_thread(w) by {
                let i = choose|i: int|
                    0 <= i < pre.threads@.len() && pre.threads@[i].id == w;
                assert(news.threads@[i].id == w);
            }
            assert forall|w: i64|
                pre.has_thread(w) && w != id
                    implies news.thread_of(w) == pre.thread_of(w) by {
                let i = choose|i: int|
                    0 <= i < pre.threads@.len() && pre.threads@[i].id == w;
                assert(i != index);
                let j = choose|j: int|
                    0 <= j < news.threads@.len() && news.threads@[j].id == w;
                assert(j != index);
                assert(pre.threads@[j].id == w);
            }
            assert(news.inv()) by {
                assert forall|k: int|
                    0 <= k < news.scheduler.queue@.len()
                        implies news.has_thread(#[trigger] news.scheduler.queue@[k])
                            && (news.current_thread != Some(news.scheduler.queue@[k])
                                ==> news.thread_of(news.scheduler.queue@[k]).inner.context
                                    is Some) by {
                    assert(pre.scheduler.queue@.contains(news.scheduler.queue@[k]));
                    let k0 = choose|k0: int|
                        0 <= k0 < pre.scheduler.queue@.len()
                            && pre.scheduler.queue@[k0] == news.scheduler.queue@[k];
                    assert(pre.has_thread(news.scheduler.queue@[k]));
                    assert(news.scheduler.queue@[k] != id);
                }
                assert(!news.scheduler.queue@.contains(news.idle_id)) by {
                    if news.scheduler.queue@.contains(news.idle_id) {
                        assert(pre.scheduler.queue@.contains(pre.idle_id));
                    }
                }
                assert(news.has_thread(news.idle_id));
                if news.current_thread != Some(news.idle_id) {
                    assert(news.idle_id != id);
                    assert(news.thread_of(news.idle_id) == pre.thread_of(pre.idle_id));
                }
                assert forall|w: i64|
                    sleep_set_view(news.sleeping_threads).contains(w)
                        implies news.has_thread(w) by {
                    if w != id {
                        assert(sleep_set_view(pre.sleeping_threads).contains(w));
                        assert(pre.has_thread(w));
                    }
                }
            }
        }
    }

    /// Wake a sleeping thread: clear its flag, take it out of the sleeping
    /// set and queue it.
    pub fn wake_thread(&mut self, id: i64)
        requires
            old(self).inv(),
            old(self).has_thread(id),
            old(self).thread_of(id).inner.context is Some,
            !old(self).scheduler.queue@.contains(id),
            id != old(self).idle_id,
            Some(id) != old(self).current_thread,
        ensures
            final(self).inv(),
            final(self).current_thread == old(self).current_thread,
            final(self).idle_id == old(self).idle_id,
            final(self).scheduler.queue@ == old(self).scheduler.queue@.push(id),
            sleep_set_view(final(self).sleeping_threads)
                == sleep_set_view(old(self).sleeping_threads).remove(id),
            final(self).has_thread(id),
            final(self).thread_of(id).inner.sleeping == false,
    {
        let ghost pre = *self;
        let index = match self.find_index(id) {
            Some(i) => i,
            None => {
                proof {
                    assert(false);
                }
                0
            }
        };
        self.threads[index].inner.sleeping = false;
        sleep_set_remove(&mut self.sleeping_threads, id);
        self.scheduler.add_thread(id);
        proof {
            let news = *self;
            assert(news.threads@
                == pre.threads@.update(index as int, news.threads@[index as int]));
            assert(news.threads@[index as int].id == id);
            assert forall|w: i64| pre.has_thread(w) implies news.has_thread(w) by {
                let i = choose|i: int|
                    0 <= i < pre.threads@.len() && pre.threads@[i].id == w;
                assert(news.threads@[i].id == w);
            }
            assert forall|w: i64|
                pre.has_thread(w) && w != id
                    implies news.thread_of(w) == pre.thread_of(w) by {
                let i = choose|i: int|
                    0 <= i < pre.threads@.len() && pre.threads@[i].id == w;
                assert(i != index);
                let j = choose|j: int|
                    0 <= j < news.threads@.len() && news.threads@[j].id == w;
                assert(j != index);
                assert(pre.threads@[j].id == w);
            }
            assert(news.thread_of(id) == news.threads@[index as int]) by {
                let j = choose|j: int|
                    0 <= j < news.threads@.len() && news.threads@[j].id == id;
                if j != index {
                    assert(pre.threads@[j].id == id);
                }
            }
            assert(news.inv()) by {
                assert forall|k: int|
                    0 <= k < news.scheduler.queue@.len()
                        implies news.has_thread(#[trigger] news.scheduler.queue@[k])
                            && (news.current_thread != Some(news.scheduler.queue@[k])
                                ==> news.thread_of(news.scheduler.queue@[k]).inner.context
                                    is Some) by {
                    if k < pre.scheduler.queue@.len() {
                        assert(pre.has_thread(pre.scheduler.queue@[k]));
                        assert(news.scheduler.queue@[k] != id);
                    } else {
                        assert(news.scheduler.queue@[k] == id);
                    }
                }
                assert(!news.scheduler.queue@.contains(news.idle_id)) by {
                    if news.scheduler.queue@.contains(news.idle_id) {
                        let k = choose|k: int|
                            0 <= k < news.scheduler.queue@.len()
                                && news.scheduler.queue@[k] == news.idle_id;
                        if k < pre.scheduler.queue@.len() {
                            assert(pre.scheduler.queue@.contains(pre.idle_id));
                        }
                    }
                }
                assert(news.has_thread(news.idle_id));
                if news.current_thread != Some(news.idle_id) {
                    assert(news.thread_of(news.idle_id) == pre.thread_of(pre.idle_id));
                }
                assert forall|w: i64|
                    sleep_set_view(news.sleeping_threads).contains(w)
                        implies news.has_thread(w) by {
                    assert(sleep_set_view(pre.sleeping_threads).contains(w));
                    assert(pre.has_thread(w));
                }
            }
        }
    }

    /// End the running thread: take it out of the ready queue and the pool.
    pub fn kill_current_thread(&mut self)
        requires
            old(self).inv(),
            old(self).current_thread matches Some(id) && id != old(self).idle_id
                && !sleep_set_view(old(self).sleeping_threads).contains(id),
        ensures
            final(self).inv(),
            final(self).current_thread is None,
            final(self).idle_id == old(self).idle_id,
            old(self).current_thread matches Some(id) ==> !final(self).has_thread(id)
                && final(self).scheduler.queue@
                    == spec_without(old(self).scheduler.queue@, id),
            sleep_set_view(final(self).sleeping_threads)
                == sleep_set_view(old(self).sleeping_threads),
            forall|w: i64|
                old(self).has_thread(w) && Some(w) != old(self).current_thread
                    ==> final(self).has_thread(w)
                        && final(self).thread_of(w) == old(self).thread_of(w),
    {
        let ghost pre = *self;
        let id = self.current_thread();
        self.scheduler.remove_thread(id);
        self.current_thread = None;
        let index = match self.find_index(id) {
            Some(i) => i,
            None => {
                proof {
                    assert(false);
                }
                0
            }
        };
        self.threads.remove(index);
        proof {
            let news = *self;
            let orig = pre.threads@;
            assert(news.threads@
                == orig.subrange(0, index as int)
                    + orig.subrange(index + 1, orig.len() as int));
            assert forall|w: i64|
                pre.has_thread(w) && w != id
                    implies news.has_thread(w) && news.thread_of(w) == pre.thread_of(w) by {
                let i = choose|i: int| 0 <= i < orig.len() && orig[i].id == w;
                assert(i != index);
                if i < index {
                    assert(news.threads@[i] == orig[i]);
                } else {
                    assert(news.threads@[i - 1] == orig[i]);
                }
                let j = choose|j: int|
                    0 <= j < news.threads@.len() && news.threads@[j].id == w;
                let m: int = if j < index { j } else { j + 1 };
                assert(orig[m].id == w);
                assert(pre.thread_of(w) == orig[i]);
                assert(orig[m] == orig[i]) by {
                    if m != i {
                        assert(orig[m].id != orig[i].id);
                    }
                }
            }
            assert(!news.has_thread(id)) by {
                if news.has_thread(id) {
                    let j = choose|j: int|
                        0 <= j < news.threads@.len() && news.threads@[j].id == id;
                    let m: int = if j < index { j } else { j + 1 };
                    assert(orig[m].id == id);
                    assert(m != index ==> orig[m].id != orig[index as int].id);
                }
            }
            assert(news.inv()) by {
                assert forall|i: int, j: int|
                    0 <= i < j < news.threads@.len()
                        implies news.threads@[i].id != news.threads@[j].id by {
                    let mi: int = if i < index { i } else { i + 1 };
                    let mj: int = if j < index { j } else { j + 1 };
                    assert(news.threads@[i] == orig[mi] && news.threads@[j] == orig[mj]);
                }
                assert forall|i: int| 0 <= i < news.threads@.len() implies
                    (#[trigger] news.threads@[i]).wf() by {
                    let mi: int = if i < index { i } else { i + 1 };
                    assert(news.threads@[i] == orig[mi]);
                }
                assert forall|k: int|
                    0 <= k < news.scheduler.queue@.len()
                        implies news.has_thread(#[trigger] news.scheduler.queue@[k])
                            && (news.current_thread != Some(news.scheduler.queue@[k])
                                ==> news.thread_of(news.scheduler.queue@[k]).inner.context
                                    is Some) by {
                    assert(pre.scheduler.queue@.contains(news.scheduler.queue@[k]));
                    let k0 = choose|k0: int|
                        0 <= k0 < pre.scheduler.queue@.len()
                            && pre.scheduler.queue@[k0] == news.scheduler.queue@[k];
                    assert(pre.has_thread(news.scheduler.queue@[k]));
                    assert(news.scheduler.queue@[k] != id);
                }
                assert(!news.scheduler.queue@.contains(news.idle_id)) by {
                    if news.scheduler.queue@.contains(news.idle_id) {
                        assert(pre.scheduler.queue@.contains(pre.idle_id));
                    }
                }
                assert(news.has_thread(news.idle_id) && news.thread_of(news.idle_id)
                    == pre.thread_of(pre.idle_id)) by {
                    assert(pre.idle_id != id);
                }
                assert forall|w: i64|
                    sleep_set_view(news.sleeping_threads).contains(w)
                        implies news.has_thread(w) by {
                    assert(pre.has_thread(w));
                    assert(w != id);
                }
            }
        }
    }

    /// Pick the next thread and place its context at the kernel stack's
    /// top: the scheduler's choice, the idle thread when only sleepers
    /// remain, and failure when no thread remains at all.  Returns the
    /// context's address and the chosen thread's `satp`.
    pub fn prepare_next_thread(&mut self, stack: &mut KernelStack) -> (r: Result<
        (u64, u64),
        KernelError,
    >)
        requires
            old(self).inv(),
            old(stack).wf(),
            old(self).current_thread matches Some(c)
                ==> old(self).thread_of(c).inner.context is Some,
        ensures
            final(self).inv(),
            final(stack).wf(),
            final(stack).base == old(stack).base,
            final(self).idle_id == old(self).idle_id,
            r is Err <==> (old(self).scheduler.queue@.len() == 0
                && sleep_set_view(old(self).sleeping_threads) == Set::<i64>::empty()),
            r matches Err(e) ==> e == KernelError::NoRunnableThreads,
            r matches Ok(p) ==> {
                &&& p.0 == old(stack).base + crate::stack::STACK_BYTES
                    - crate::stack::CONTEXT_BYTES
                &&& (final(self).current_thread matches Some(nid) && {
                    &&& old(self).has_thread(nid)
                    &&& p.1 == (SATP_MODE_SV39
                        | old(self).thread_of(nid).process.mapping.root_ppn)
                    &&& final(stack).top_context == old(self).thread_of(nid).inner.context
                    &&& final(self).has_thread(nid)
                    &&& final(self).thread_of(nid).inner.context is None
                    &&& forall|w: i64|
                            old(self).has_thread(w) && w != nid
                                ==> final(self).has_thread(w)
                                    && final(self).thread_of(w) == old(self).thread_of(w)
                })
            },
            sleep_set_view(final(self).sleeping_threads)
                == sleep_set_view(old(self).sleeping_threads),
            forall|w: i64| final(self).has_thread(w) ==> old(self).has_thread(w),
            old(self).scheduler.queue@.len() > 0 ==> r is Ok
                && final(self).current_thread == Some(old(self).scheduler.queue@[0])
                && final(self).scheduler.queue@ == spec_rotate(old(self).scheduler.queue@),
            old(self).scheduler.queue@.len() == 0
                ==> final(self).scheduler.queue@ == old(self).scheduler.queue@,
            old(self).scheduler.queue@.len() == 0
                && sleep_set_view(old(self).sleeping_threads) != Set::<i64>::empty()
                ==> r is Ok && final(self).current_thread == Some(old(self).idle_id),
    {
        let ghost pre = *self;
        match self.scheduler.get_next() {
            Some(id) => {
                proof {
                    assert(pre.scheduler.queue@[0] == id);
                    assert(pre.has_thread(id));
                    if pre.current_thread != Some(id) {
                        assert(pre.thread_of(id).inner.context is Some);
                    }
                }
                self.current_thread = Some(id);
                let index = match self.find_index(id) {
                    Some(i) => i,
                    None => {
                        proof {
                            assert(false);
                        }
                        0
                    }
                };
                proof {
                    assert(self.thread_of(id) == self.threads@[index as int]);
                }
                let r = self.threads[index].prepare(stack);
                proof {
                    let news = *self;
                    assert(news.threads@
                        == pre.threads@.update(index as int, news.threads@[index as int]));
                    assert(news.threads@[index as int].id == id);
                    assert forall|w: i64| pre.has_thread(w) implies news.has_thread(w) by {
                        let i = choose|i: int|
                            0 <= i < pre.threads@.len() && pre.threads@[i].id == w;
                        assert(news.threads@[i].id == w);
                    }
                    assert forall|w: i64| news.has_thread(w) implies pre.has_thread(w) by {
                        let i = choose|i: int|
                            0 <= i < news.threads@.len() && news.threads@[i].id == w;
                        if i != index {
                            assert(pre.threads@[i].id == w);
                        } else {
                            assert(pre.threads@[index as int].id == w);
                        }
                    }
                    assert forall|w: i64|
                        pre.has_thread(w) && w != id
                            implies news.thread_of(w) == pre.thread_of(w) by {
                        let i = choose|i: int|
                            0 <= i < pre.threads@.len() && pre.threads@[i].id == w;
                        assert(i != index);
                        let j = choose|j: int|
                            0 <= j < news.threads@.len() && news.threads@[j].id == w;
                        assert(j != index);
                        assert(pre.threads@[j].id == w);
                    }
                    assert(news.inv()) by {
                        assert forall|k: int|
                            0 <= k < news.scheduler.queue@.len()
                                && news.current_thread
                                    != Some(#[trigger] news.scheduler.queue@[k])
                                implies news.thread_of(
                                    news.scheduler.queue@[k]).inner.context is Some by {
                            assert(pre.scheduler.queue@.contains(news.scheduler.queue@[k]));
                            let k0 = choose|k0: int|
                                0 <= k0 < pre.scheduler.queue@.len()
                                    && pre.scheduler.queue@[k0] == news.scheduler.queue@[k];
                            assert(pre.has_thread(news.scheduler.queue@[k]));
                            assert(news.scheduler.queue@[k] != id);
                        }
                        assert(!news.scheduler.queue@.contains(news.idle_id)) by {
                            if news.scheduler.queue@.contains(news.idle_id) {
                                assert(pre.scheduler.queue@.contains(pre.idle_id));
                            }
                        }
                        assert(news.has_thread(news.idle_id));
                        if news.current_thread != Some(news.idle_id) {
                            assert(news.idle_id != id);
                            assert(news.thread_of(news.idle_id)
                                == pre.thread_of(pre.idle_id));
                        }
                        assert forall|w: i64|
                            sleep_set_view(news.sleeping_threads).contains(w)
                                implies news.has_thread(w) by {
                            assert(pre.has_thread(w));
                        }
                    }
                }
                Ok(r)
            }
            None => {
                if sleep_set_is_empty(&self.sleeping_threads) {
                    Err(KernelError::NoRunnableThreads)
                } else {
                    let id = self.idle_id;
                    proof {
                        if pre.current_thread != Some(id) {
                            assert(pre.thread_of(id).inner.context is Some);
                        } else {
                            assert(pre.thread_of(id).inner.context is Some);
                        }
                    }
                    self.current_thread = Some(id);
                    let index = match self.find_index(id) {
                        Some(i) => i,
                        None => {
                            proof {
                                assert(false);
                            }
                            0
                        }
                    };
                    proof {
                        assert(self.thread_of(id) == self.threads@[index as int]);
                    }
                    let r = self.threads[index].prepare(stack);
                    proof {
                        let news = *self;
                        assert(news.threads@
                            == pre.threads@.update(
                                index as int, news.threads@[index as int]));
                        assert(news.threads@[index as int].id == id);
                        assert forall|w: i64| pre.has_thread(w)
                            implies news.has_thread(w) by {
                            let i = choose|i: int|
                                0 <= i < pre.threads@.len() && pre.threads@[i].id == w;
                            assert(news.threads@[i].id == w);
                        }
                        assert forall|w: i64| news.has_thread(w)
                            implies pre.has_thread(w) by {
                            let i = choose|i: int|
                                0 <= i < news.threads@.len() && news.threads@[i].id == w;
                            if i != index {
                                assert(pre.threads@[i].id == w);
                            } else {
                                assert(pre.threads@[index as int].id == w);
                            }
                        }
                        assert forall|w: i64|
                            pre.has_thread(w) && w != id
                                implies news.thread_of(w) == pre.thread_of(w) by {
                            let i = choose|i: int|
                                0 <= i < pre.threads@.len() && pre.threads@[i].id == w;
                            assert(i != index);
                            let j = choose|j: int|
                                0 <= j < news.threads@.len() && news.threads@[j].id == w;
                            assert(j != index);
                            assert(pre.threads@[j].id == w);
                        }
                        assert(news.inv()) by {
                            assert forall|k: int|
                                0 <= k < news.scheduler.queue@.len()
                                    && news.current_thread
                                        != Some(#[trigger] news.scheduler.queue@[k])
                                    implies news.thread_of(
                                        news.scheduler.queue@[k]).inner.context
                                        is Some by {
                                assert(pre.scheduler.queue@.len() == 0);
                            }
                            assert forall|w: i64|
                                sleep_set_view(news.sleeping_threads).contains(w)
                                    implies news.has_thread(w) by {
                                assert(pre.has_thread(w));
                            }
                        }
                    }
                    Ok(r)
                }
            }
        }
    }
}

} // verus!
