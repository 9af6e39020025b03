//! Condition variables.
//!
//! A condition variable queues the threads waiting on it; waking hands the
//! longest waiter back to the scheduler.

use vstd::prelude::*;
use std::collections::VecDeque;
use crate::collections::sleep_set_view;
use crate::processor::Processor;

verus! {

/// A queue of threads waiting for a condition.
pub struct Condvar {
    /// The waiting threads' ids, longest waiting first.
    pub watchers: VecDeque<i64>,
}

impl Condvar {
    /// A condition variable nobody waits on.
    pub fn new() -> (r: Condvar)
        ensures
            r.watchers@ == Seq::<i64>::empty(),
    {
        Condvar { watchers: VecDeque::new() }
    }

    /// Put the running thread to sleep waiting on this condition.
    pub fn wait(&mut self, processor: &mut Processor)
        requires
            old(processor).inv(),
            old(processor).current_thread is Some,
        ensures
            final(processor).inv(),
            final(processor).current_thread == old(processor).current_thread,
            old(processor).current_thread matches Some(id) ==> {
                &&& final(self).watchers@ == old(self).watchers@.push(id)
                &&& sleep_set_view(final(processor).sleeping_threads)
                    == sleep_set_view(old(processor).sleeping_threads).insert(id)
                &&& !final(processor).scheduler.queue@.contains(id)
                &&& final(processor).has_thread(id)
                &&& final(processor).thread_of(id).inner.sleeping == true
            },
    {
        let id = processor.current_thread();
        self.watchers.push_back(id);
        processor.sleep_current_thread();
    }

    /// Wake the longest-waiting thread, if any.
    pub fn notify_one(&mut self, processor: &mut Processor)
        requires
            old(processor).inv(),
            forall|k: int|
                0 <= k < old(self).watchers@.len() ==> {
                    &&& old(processor).has_thread(#[trigger] old(self).watchers@[k])
                    &&& old(processor).thread_of(old(self).watchers@[k]).inner.context
                        is Some
                    &&& !old(processor).scheduler.queue@.contains(old(self).watchers@[k])
                    &&& old(self).watchers@[k] != old(processor).idle_id
                    &&& Some(old(self).watchers@[k]) != old(processor).current_thread
                },
        ensures
            final(processor).inv(),
            final(processor).current_thread == old(processor).current_thread,
            old(self).watchers@.len() == 0 ==> final(self).watchers@ == old(self).watchers@
                && *final(processor) == *old(processor),
            old(self).watchers@.len() > 0 ==> {
                &&& final(self).watchers@
                    == old(self).watchers@.subrange(1, old(self).watchers@.len() as int)
                &&& final(processor).scheduler.queue@
                    == old(processor).scheduler.queue@.push(old(self).watchers@[0])
                &&& sleep_set_view(final(processor).sleeping_threads)
                    == sleep_set_view(old(processor).sleeping_threads).remove(
                        old(self).watchers@[0])
                &&& final(processor).has_thread(old(self).watchers@[0])
                &&& final(processor).thread_of(old(self).watchers@[0]).inner.sleeping
                    == false
            },
    {
        match self.watchers.pop_front() {
            Some(id) => {
                processor.wake_thread(id);
            }
            None => {}
        }
    }
}

} // verus!
