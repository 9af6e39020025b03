//! The keyboard input buffer.
//!
//! External interrupts drain one character from the firmware console and
//! push it here; the read syscall pops from the front.

use vstd::prelude::*;
use std::collections::VecDeque;

verus! {

/// A first-in, first-out buffer of input bytes.
pub struct StdinBuffer {
    /// The buffered bytes, oldest first.
    pub queue: VecDeque<u8>,
}

impl StdinBuffer {
    /// An empty buffer.
    pub fn new() -> (r: StdinBuffer)
        ensures
            r.queue@ == Seq::<u8>::empty(),
    {
        StdinBuffer { queue: VecDeque::new() }
    }

    /// Append one byte.
    pub fn push(&mut self, byte: u8)
        ensures
            final(self).queue@ == old(self).queue@.push(byte),
    {
        self.queue.push_back(byte);
    }

    /// Take the oldest byte, if any.
    pub fn pop(&mut self) -> (r: Option<u8>)
        ensures
            r is None <==> old(self).queue@.len() == 0,
            r is None ==> final(self).queue@ == old(self).queue@,
            r matches Some(b) ==> b == old(self).queue@[0]
                && final(self).queue@
                    == old(self).queue@.subrange(1, old(self).queue@.len() as int),
    {
        self.queue.pop_front()
    }
}

} // verus!
