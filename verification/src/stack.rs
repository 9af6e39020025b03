//! The shared interrupt and kernel stacks.
//!
//! A thread's context always sits at the top of the shared stack: the
//! trampoline saves registers there on a trap and restores them from the
//! pointer the dispatcher returns.  The model records the stack's base
//! address and the context at its top; `push_context` returns the address
//! the hardware would use, the top minus one context.

use vstd::prelude::*;
use crate::context::Context;

verus! {

/// Bytes of one saved context: 34 fields of 8 bytes.
pub const CONTEXT_BYTES: u64 = 272;

/// Bytes of the shared stacks.
pub const STACK_BYTES: u64 = 0x8_0000;

/// The stack a trapped thread's context is saved on.
pub struct InterruptStack {
    /// Lowest address of the stack.
    pub base: u64,
    /// The context at the stack's top, if one was pushed.
    pub top_context: Option<Context>,
}

impl InterruptStack {
    /// The stack must fit below the address space's end.
    pub open spec fn wf(&self) -> bool {
        self.base + STACK_BYTES <= u64::MAX
    }

    /// An empty stack based at `base`.
    pub fn new(base: u64) -> (r: InterruptStack)
        requires
            base + STACK_BYTES <= u64::MAX,
        ensures
            r.wf(),
            r.base == base,
            r.top_context is None,
    {
        InterruptStack { base, top_context: None }
    }

    /// Place `context` at the stack's top and return its address: the top
    /// of the stack minus the size of one context.
    pub fn push_context(&mut self, context: Context) -> (r: u64)
        requires
            old(self).wf(),
        ensures
            final(self).wf(),
            final(self).base == old(self).base,
            r == old(self).base + STACK_BYTES - CONTEXT_BYTES,
            final(self).top_context == Some(context),
    {
        self.top_context = Some(context);
        self.base + STACK_BYTES - CONTEXT_BYTES
    }
}

/// The stack the kernel handles traps on; the same discipline as
/// [`InterruptStack`].
pub struct KernelStack {
    /// Lowest address of the stack.
    pub base: u64,
    /// The context at the stack's top, if one was pushed.
    pub top_context: Option<Context>,
}

impl KernelStack {
    /// The stack must fit below the address space's end.
    pub open spec fn wf(&self) -> bool {
        self.base + STACK_BYTES <= u64::MAX
    }

    /// An empty stack based at `base`.
    pub fn new(base: u64) -> (r: KernelStack)
        requires
            base + STACK_BYTES <= u64::MAX,
        ensures
            r.wf(),
            r.base == base,
            r.top_context is None,
    {
        KernelStack { base, top_context: None }
    }

    /// Place `context` at the stack's top and return its address: the top
    /// of the stack minus the size of one context.
    pub fn push_context(&mut self, context: Context) -> (r: u64)
        requires
            old(self).wf(),
        ensures
            final(self).wf(),
            final(self).base == old(self).base,
            r == old(self).base + STACK_BYTES - CONTEXT_BYTES,
            final(self).top_context == Some(context),
    {
        self.top_context = Some(context);
        self.base + STACK_BYTES - CONTEXT_BYTES
    }
}

} // verus!
