//! Constants of the kernel model.

use vstd::prelude::*;

verus! {

/// Bytes in one page.
///
/// Addresses, page numbers and register values are modelled as `u64`: the
/// machine is RV64.  `usize` appears only where values index a vector.
pub const PAGE_SIZE: usize = 4096;

/// [`PAGE_SIZE`] as a `u64`, for address arithmetic.
pub const PAGE_SIZE_U64: u64 = 4096;

/// Entries in one page table (one page of 8-byte entries).
pub const PAGE_TABLE_ENTRIES: usize = 512;

/// Pages the swap file can hold.
pub const SWAP_FILE_CAPACITY: usize = 4096;

/// Bytes of one saved trap context: 32 registers plus `sstatus` and `sepc`.
pub const CONTEXT_SIZE: usize = 272;

/// Size of each thread's running stack.
pub const STACK_SIZE: usize = 0x8_0000;

/// Size of the shared interrupt stack.
pub const INTERRUPT_STACK_SIZE: usize = 0x8_0000;

/// Size of the shared kernel stack.
pub const KERNEL_STACK_SIZE: usize = 0x8_0000;

/// Page offset of the kernel's linear map: a linearly mapped virtual page
/// number translates to itself shifted down by this many pages.  The kernel
/// runs identity-mapped, so the offset is zero.
pub const KERNEL_LINEAR_OFFSET_PAGES: u64 = 0;

/// Number of timer cycles between two clock interrupts.
pub const TIMER_INTERVAL: u64 = 100000;

/// `satp` mode field for Sv39 paging, already shifted into place.
pub const SATP_MODE_SV39: u64 = 0x8000_0000_0000_0000;

} // verus!
