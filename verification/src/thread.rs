//! Processes and threads.
//!
//! A process owns its address space and a growing virtual-address cursor
//! for stack allocation.  A thread owns a stack range in its process, a
//! saved context (present exactly while the thread is suspended), and
//! liveness flags.

use vstd::prelude::*;
use crate::KernelError;
use crate::addr::{VirtualAddress, VPN_LIMIT};
use crate::config::{SATP_MODE_SV39, STACK_SIZE, SWAP_FILE_CAPACITY};
use crate::context::Context;
use crate::frame::FrameAllocator;
use crate::mapping::Mapping;
use crate::pte::{FLAG_READABLE, FLAG_USER, FLAG_WRITABLE};
use crate::segment::{spec_end_vpn, spec_start_vpn, MapType, Range, Segment};
use crate::stack::KernelStack;
use crate::swap::SwapStore;

verus! {

/// First virtual address handed out for thread stacks.
pub const STACK_AREA_BASE: u64 = 0x1_0000_0000;

/// An open file of a thread; the console is the only kind the kernel knows.
#[derive(Clone, Copy, Debug, PartialEq, Eq, Structural)]
pub enum Descriptor {
    /// The console input stream.
    Stdin,
    /// The console output stream.
    Stdout,
}

/// A process: one address space plus bookkeeping.
pub struct Process {
    /// Whether the process's threads run in user mode.
    pub is_user: bool,
    /// The process's address space.
    pub mapping: Mapping,
    /// Lowest virtual address never handed out for a stack yet.
    pub va_cursor: u64,
    /// The process's open files.
    pub descriptors: Vec<Descriptor>,
}

impl Process {
    /// The address space is sound and every page at or above the cursor is
    /// still unmapped, so stack allocation always finds free pages.
    pub open spec fn wf(&self) -> bool {
        &&& self.mapping.wf()
        &&& self.va_cursor % 4096 == 0
        &&& STACK_AREA_BASE <= self.va_cursor
        &&& self.va_cursor <= 0x40_0000_0000
        &&& forall|w: u64|
                self.va_cursor / 4096 <= w < VPN_LIMIT ==> self.mapping.pte_of(w) == 0
    }

    /// Create a kernel process with a fresh address space and the given
    /// frame quota; fails exactly when no frame is free for the root table.
    pub fn new_kernel(fa: &mut FrameAllocator, frame_quota: usize) -> (r: Result<
        Process,
        KernelError,
    >)
        requires
            old(fa).inv(),
        ensures
            final(fa).inv(),
            final(fa).base_ppn == old(fa).base_ppn,
            final(fa).capacity_spec() == old(fa).capacity_spec(),
            r is Ok <==> old(fa).outstanding() < old(fa).capacity_spec(),
            r matches Err(e) ==> e == KernelError::OutOfFrames,
            r matches Ok(p) ==> {
                &&& p.wf()
                &&& !p.is_user
                &&& p.mapping.owned_by(*final(fa))
                &&& p.mapping.quota() == frame_quota
                &&& p.mapping.resident() == Map::<u64, (u64, Seq<u8>)>::empty()
                &&& p.mapping.swapped() == Map::<u64, usize>::empty()
            },
    {
        let mapping = match Mapping::new(fa, frame_quota) {
            Ok(m) => m,
            Err(e) => {
                return Err(e);
            }
        };
        Ok(Process { is_user: false, mapping, va_cursor: STACK_AREA_BASE, descriptors: Vec::new() })
    }

    /// Map a fresh range of `size` bytes above the cursor for a stack, and
    /// move the cursor past it.
    pub fn alloc_page_range(
        &mut self,
        fa: &mut FrameAllocator,
        store: &mut SwapStore,
        size: u64,
        flags: u64,
    ) -> (r: Result<Range, KernelError>)
        requires
            old(self).wf(),
            old(fa).inv(),
            old(store).inv(),
            old(self).mapping.owned_by(*old(fa)),
            old(self).mapping.consistent_with(*old(store)),
            size % 4096 == 0,
            0 < size <= 0x1000_0000,
            flags < 1024,
            flags % 2 == 0,
            flags / 2 > 0,
        ensures
            final(self).wf(),
            final(fa).inv(),
            final(store).inv(),
            final(self).mapping.owned_by(*final(fa)),
            final(self).mapping.consistent_with(*final(store)),
            final(fa).base_ppn == old(fa).base_ppn,
            final(fa).capacity_spec() == old(fa).capacity_spec(),
            final(self).is_user == old(self).is_user,
            final(self).mapping.quota() == old(self).mapping.quota(),
            r matches Err(e)
                ==> (e == KernelError::OutOfFrames || e == KernelError::OutOfSwapSlots),
            r matches Ok(range) ==> {
                &&& range.start.0 == old(self).va_cursor
                &&& range.end.0 == old(self).va_cursor + size
                &&& final(self).va_cursor == old(self).va_cursor + size
            },
            // Success is owed while the stack area, the frame allocator and
            // the swap store all have room.
            old(self).va_cursor + size <= 0x40_0000_0000
                && old(fa).outstanding() + 3 * (size as int / 4096)
                    <= old(fa).capacity_spec()
                && old(store).outstanding() + size as int / 4096 <= SWAP_FILE_CAPACITY
                ==> r is Ok,
            // Failure comes only from true exhaustion.
            (r matches Err(e) && e == KernelError::OutOfFrames)
                ==> (old(self).va_cursor + size > 0x40_0000_0000
                    || final(fa).outstanding() == final(fa).capacity_spec()),
            (r matches Err(e) && e == KernelError::OutOfSwapSlots)
                ==> final(store).outstanding() == SWAP_FILE_CAPACITY,
    {
        let start = self.va_cursor;
        if start > 0x40_0000_0000u64 - size {
            // The stack area is exhausted; treat it as memory exhaustion.
            return Err(KernelError::OutOfFrames);
        }
        let end = start + size;
        let segment = Segment {
            map_type: MapType::Framed,
            range: Range { start: VirtualAddress(start), end: VirtualAddress(end) },
            flags,
        };
        proof {
            assert(spec_end_vpn(segment) == end / 4096) by {
                assert((end + 4095) / 4096 == end / 4096) by (nonlinear_arith)
                    requires
                        end % 4096 == 0,
                        end > 0,
                ;
            }
            assert(spec_start_vpn(segment) == start / 4096);
            assert(spec_end_vpn(segment) - spec_start_vpn(segment) == size as int / 4096) by {
                assert(end as int / 4096 == start as int / 4096 + size as int / 4096)
                    by (nonlinear_arith)
                    requires
                        start % 4096 == 0,
                        size % 4096 == 0,
                        end == start + size,
                ;
            }
            assert(segment.wf());
            assert forall|w: u64|
                spec_start_vpn(segment) <= w < spec_end_vpn(segment)
                    implies self.mapping.pte_of(w) == 0 by {
                assert(self.va_cursor / 4096 <= w < VPN_LIMIT);
            }
        }
        let map_result = self.mapping.map(fa, store, &segment, None);
        // The covered pages are burned either way: a failed map leaves a
        // partial segment behind and the caller discards the mapping.
        self.va_cursor = end;
        match map_result {
            Ok(_) => {}
            Err(e) => {
                proof {
                    assert forall|w: u64|
                        self.va_cursor / 4096 <= w < VPN_LIMIT
                            implies self.mapping.pte_of(w) == 0 by {
                        assert(!(spec_start_vpn(segment) <= w < spec_end_vpn(segment)));
                        assert(old(self).va_cursor / 4096 <= w);
                    }
                }
                return Err(e);
            }
        }
        proof {
            assert forall|w: u64|
                self.va_cursor / 4096 <= w < VPN_LIMIT
                    implies self.mapping.pte_of(w) == 0 by {
                assert(!(spec_start_vpn(segment) <= w < spec_end_vpn(segment)));
                assert(old(self).va_cursor / 4096 <= w);
            }
        }
        Ok(Range { start: VirtualAddress(start), end: VirtualAddress(end) })
    }
}

/// A thread: its stack, its process, and its suspended state.
pub struct Thread {
    /// The thread's id; ids never repeat.
    pub id: i64,
    /// The virtual range of the thread's stack.
    pub stack: Range,
    /// The process the thread belongs to.
    pub process: Process,
    /// The thread's mutable state.
    pub inner: ThreadInner,
}

/// The mutable part of a thread.
pub struct ThreadInner {
    /// The saved registers; present exactly while the thread is suspended.
    pub context: Option<Context>,
    /// Whether the thread waits in the sleeping set.
    pub sleeping: bool,
    /// Whether the thread has ended and awaits removal.
    pub dead: bool,
    /// The thread's open files.
    pub descriptors: Vec<Descriptor>,
}

impl Thread {
    /// The thread's process is sound and a saved context is well formed.
    pub open spec fn wf(&self) -> bool {
        &&& self.process.wf()
        &&& (self.inner.context matches Some(c) ==> c.wf())
    }

    /// Create a thread: allocate and map its stack in the process, then
    /// build its first context on top of that stack.
    ///
    /// The caller supplies the thread id and owes its freshness: the
    /// original numbers threads from a global monotone counter, which the
    /// library has no home for, so the boot path passes the counter's next
    /// value and [`crate::processor::Processor::add_thread`] rejects an id
    /// already in the pool.
    pub fn new(
        id: i64,
        process: Process,
        entry_point: u64,
        arguments: Option<&Vec<u64>>,
        fa: &mut FrameAllocator,
        store: &mut SwapStore,
    ) -> (r: Result<Thread, KernelError>)
        requires
            process.wf(),
            old(fa).inv(),
            old(store).inv(),
            process.mapping.owned_by(*old(fa)),
            process.mapping.consistent_with(*old(store)),
            arguments matches Some(a) ==> a@.len() <= 8,
        ensures
            final(fa).inv(),
            final(store).inv(),
            final(fa).base_ppn == old(fa).base_ppn,
            final(fa).capacity_spec() == old(fa).capacity_spec(),
            r matches Err(e)
                ==> (e == KernelError::OutOfFrames || e == KernelError::OutOfSwapSlots),
            r matches Ok(t) ==> {
                &&& t.wf()
                &&& t.id == id
                &&& t.process.mapping.owned_by(*final(fa))
                &&& t.process.mapping.consistent_with(*final(store))
                &&& t.stack.start.0 == process.va_cursor
                &&& t.stack.end.0 == process.va_cursor + STACK_SIZE
                &&& t.process.va_cursor == process.va_cursor + STACK_SIZE
                &&& t.process.is_user == process.is_user
                &&& t.inner.descriptors@
                    == seq![Descriptor::Stdin, Descriptor::Stdout]
                &&& t.inner.context matches Some(c)
                &&& (t.inner.context matches Some(c) ==> {
                    &&& c.sepc == entry_point
                    &&& c.registers@[2] == t.stack.end.0
                    &&& c.sstatus == crate::context::SSTATUS_SPIE
                        + if process.is_user { 0u64 } else { crate::context::SSTATUS_SPP }
                    &&& (arguments matches Some(a)
                        ==> forall|k: int|
                                0 <= k < a@.len() ==> c.registers@[10 + k] == a@[k])
                })
                &&& !t.inner.sleeping
                &&& !t.inner.dead
            },
            // Success is owed while the stack area, the frame allocator and
            // the swap store all have room for one thread stack.
            process.va_cursor + STACK_SIZE <= 0x40_0000_0000
                && old(fa).outstanding() + 3 * (STACK_SIZE as int / 4096)
                    <= old(fa).capacity_spec()
                && old(store).outstanding() + STACK_SIZE as int / 4096
                    <= SWAP_FILE_CAPACITY
                ==> r is Ok,
    {
        let mut process = process;
        let stack = match process.alloc_page_range(
            fa,
            store,
            STACK_SIZE as u64,
            FLAG_READABLE + FLAG_WRITABLE + if process.is_user { FLAG_USER } else { 0 },
        ) {
            Ok(range) => range,
            Err(e) => {
                return Err(e);
            }
        };
        let context = Context::new(stack.end.0, entry_point, arguments, process.is_user);
        let mut descriptors: Vec<Descriptor> = Vec::new();
        descriptors.push(Descriptor::Stdin);
        descriptors.push(Descriptor::Stdout);
        proof {
            assert(descriptors@ =~= seq![Descriptor::Stdin, Descriptor::Stdout]);
        }
        Ok(Thread {
            id,
            stack,
            process,
            inner: ThreadInner { context: Some(context), sleeping: false, dead: false, descriptors },
        })
    }

    /// Resume this thread: activate its address space, take the saved
    /// context out and place it at the kernel stack's top.  Returns the
    /// context's address and the `satp` value of the thread's mapping.
    pub fn prepare(&mut self, stack: &mut KernelStack) -> (r: (u64, u64))
        requires
            old(self).wf(),
            old(stack).wf(),
            old(self).inner.context is Some,
        ensures
            final(self).wf(),
            final(stack).wf(),
            final(stack).base == old(stack).base,
            final(self).inner.context is None,
            final(self).id == old(self).id,
            final(self).process == old(self).process,
            final(self).inner.sleeping == old(self).inner.sleeping,
            final(self).inner.dead == old(self).inner.dead,
            r.0 == old(stack).base + crate::stack::STACK_BYTES - crate::stack::CONTEXT_BYTES,
            final(stack).top_context == old(self).inner.context,
            r.1 == (SATP_MODE_SV39 | old(self).process.mapping.root_ppn),
    {
        let satp = self.process.mapping.activate();
        let context = match self.inner.context.take() {
            Some(c) => c,
            None => {
                proof {
                    assert(false);
                }
                Context::new(0, 0, None, false)
            }
        };
        let ptr = stack.push_context(context);
        (ptr, satp)
    }

    /// Park this thread: store the freshly saved context; the slot must be
    /// empty, a running thread's context lives on the interrupt stack.
    pub fn park(&mut self, context: Context)
        requires
            old(self).wf(),
            old(self).inner.context is None,
            context.wf(),
        ensures
            final(self).wf(),
            final(self).inner.context == Some(context),
            final(self).id == old(self).id,
            final(self).process == old(self).process,
            final(self).inner.sleeping == old(self).inner.sleeping,
            final(self).inner.dead == old(self).inner.dead,
    {
        self.inner.context = Some(context);
    }
}

/// Create a kernel thread whose return address is the kernel's thread-exit
/// routine, so that running off the entry function ends the thread.  As
/// with [`Thread::new`], the caller owes the id's freshness.
pub fn create_kernel_thread(
    id: i64,
    process: Process,
    entry_point: u64,
    arguments: Option<&Vec<u64>>,
    exit_handler: u64,
    fa: &mut FrameAllocator,
    store: &mut SwapStore,
) -> (r: Result<Thread, KernelError>)
    requires
        process.wf(),
        old(fa).inv(),
        old(store).inv(),
        process.mapping.owned_by(*old(fa)),
        process.mapping.consistent_with(*old(store)),
        arguments matches Some(a) ==> a@.len() <= 8,
    ensures
        final(fa).inv(),
        final(store).inv(),
        r matches Err(e)
            ==> (e == KernelError::OutOfFrames || e == KernelError::OutOfSwapSlots),
        r matches Ok(t) ==> {
            &&& t.wf()
            &&& t.id == id
            &&& t.stack.start.0 == process.va_cursor
            &&& t.stack.end.0 == process.va_cursor + STACK_SIZE
            &&& t.inner.descriptors@ == seq![Descriptor::Stdin, Descriptor::Stdout]
            &&& t.inner.context is Some
            &&& (t.inner.context matches Some(c) ==> {
                &&& c.sepc == entry_point
                &&& c.registers@[1] == exit_handler
                &&& c.registers@[2] == t.stack.end.0
                &&& c.sstatus == crate::context::SSTATUS_SPIE
                    + if process.is_user { 0u64 } else { crate::context::SSTATUS_SPP }
                &&& (arguments matches Some(a)
                    ==> forall|k: int|
                            0 <= k < a@.len() && 10 + k != 1
                                ==> c.registers@[10 + k] == a@[k])
            })
            &&& !t.inner.sleeping
            &&& !t.inner.dead
            &&& t.process.mapping.owned_by(*final(fa))
            &&& t.process.mapping.consistent_with(*final(store))
        },
        process.va_cursor + STACK_SIZE <= 0x40_0000_0000
            && old(fa).outstanding() + 3 * (STACK_SIZE as int / 4096)
                <= old(fa).capacity_spec()
            && old(store).outstanding() + STACK_SIZE as int / 4096 <= SWAP_FILE_CAPACITY
            ==> r is Ok,
{
    let mut thread = match Thread::new(id, process, entry_point, arguments, fa, store) {
        Ok(t) => t,
        Err(e) => {
            return Err(e);
        }
    };
    match &mut thread.inner.context {
        Some(c) => {
            c.set_ra(exit_handler);
        }
        None => {
            proof {
                assert(false);
            }
        }
    }
    Ok(thread)
}

} // verus!
