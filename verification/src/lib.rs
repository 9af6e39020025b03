//! A verified model of a small Sv39 teaching kernel.
//!
//! The library covers the logic of the kernel: physical frame allocation,
//! Sv39 page-table construction, segment mapping with demand paging against a
//! swap store, a FIFO page-replacement policy, a round-robin thread scheduler,
//! a processor with a sleeping set and an idle thread, and the trap dispatcher
//! that ties them together.  Hardware access (CSR writes, SBI calls, the
//! trampoline, raw memory) stays outside; the library works on plain values
//! and states in its contracts what each operation does to them.

use vstd::prelude::*;

pub mod addr;
pub mod allocator;
pub mod collections;
pub mod condvar;
pub mod config;
pub mod context;
pub mod frame;
pub mod handler;
pub mod mapping;
pub mod page_table;
pub mod processor;
pub mod pte;
pub mod scheduler;
pub mod segment;
pub mod stack;
pub mod stdin;
pub mod swap;
pub mod swapper;
pub mod thread;
pub mod timer;

verus! {

/// The error kinds the kernel logic can report.
#[derive(Clone, Copy, Debug, PartialEq, Eq, Structural)]
pub enum KernelError {
    /// The physical frame allocator has no free frame left.
    OutOfFrames,
    /// The swap file has no free page slot left.
    OutOfSwapSlots,
    /// A page fault hit a virtual page with no swapped-out entry.
    VpnUnmapped,
    /// Neither a ready nor a sleeping thread remains.
    NoRunnableThreads,
}

/// Shorthand used by the memory subsystem, as a `Result` over [`KernelError`].
pub type MemoryResult<T> = Result<T, KernelError>;

} // verus!
