//! The trap dispatcher.
//!
//! One entry from the trampoline: decode the cause, route to the memory
//! engine or the processor, and hand back the address of the context to
//! restore — always the top of the kernel stack minus one context, which is
//! where the trampoline expects it.
//!
//! The firmware console, the timer hardware and the syscall surface are
//! external collaborators: the dispatcher takes the drained input character,
//! the current time and the syscall outcome as arguments and decides from
//! them.

use vstd::prelude::*;
use crate::KernelError;
use crate::addr::VirtualAddress;
use crate::mapping::Mapping;
use crate::scheduler::{lemma_rotate_contains, spec_rotate, spec_without};
use crate::collections::sleep_set_view;
use crate::config::TIMER_INTERVAL;
use crate::context::Context;
use crate::frame::FrameAllocator;
use crate::processor::Processor;
use crate::stack::KernelStack;
use crate::stdin::StdinBuffer;
use crate::swap::SwapStore;
use crate::timer::Timer;

verus! {

/// The trap causes the kernel routes, decoded from `scause`.
#[derive(Clone, Copy, Debug, PartialEq, Eq, Structural)]
pub enum TrapKind {
    /// An `ebreak` instruction.
    Breakpoint,
    /// An environment call from user mode.
    UserEnvCall,
    /// A load hit an unmapped or invalid page.
    LoadPageFault,
    /// A store hit an unmapped or invalid page.
    StorePageFault,
    /// An instruction fetch hit an unmapped or invalid page.
    InstructionPageFault,
    /// The clock interrupt.
    SupervisorTimer,
    /// An external device interrupt, here the console.
    SupervisorExternal,
    /// Anything the kernel does not handle.
    Unknown,
}

/// The decoded meaning of a raw `scause` value: the top bit tells
/// interrupts from exceptions, the rest is the cause code.
pub open spec fn spec_decode_scause(raw: u64) -> TrapKind {
    if raw >= 0x8000_0000_0000_0000 {
        let code = raw - 0x8000_0000_0000_0000;
        if code == 5 {
            TrapKind::SupervisorTimer
        } else if code == 9 {
            TrapKind::SupervisorExternal
        } else {
            TrapKind::Unknown
        }
    } else {
        if raw == 3 {
            TrapKind::Breakpoint
        } else if raw == 8 {
            TrapKind::UserEnvCall
        } else if raw == 12 {
            TrapKind::InstructionPageFault
        } else if raw == 13 {
            TrapKind::LoadPageFault
        } else if raw == 15 {
            TrapKind::StorePageFault
        } else {
            TrapKind::Unknown
        }
    }
}

/// Decode a raw `scause` register value.
pub fn decode_scause(raw: u64) -> (r: TrapKind)
    ensures
        r == spec_decode_scause(raw),
{
    if raw >= 0x8000_0000_0000_0000 {
        let code = raw - 0x8000_0000_0000_0000;
        if code == 5 {
            TrapKind::SupervisorTimer
        } else if code == 9 {
            TrapKind::SupervisorExternal
        } else {
            TrapKind::Unknown
        }
    } else {
        if raw == 3 {
            TrapKind::Breakpoint
        } else if raw == 8 {
            TrapKind::UserEnvCall
        } else if raw == 12 {
            TrapKind::InstructionPageFault
        } else if raw == 13 {
            TrapKind::LoadPageFault
        } else if raw == 15 {
            TrapKind::StorePageFault
        } else {
            TrapKind::Unknown
        }
    }
}

/// What the syscall surface asks the dispatcher to do.
#[derive(Clone, Copy, Debug, PartialEq, Eq, Structural)]
pub enum SyscallResult {
    /// Continue the thread; a0 receives the value.
    Proceed(i64),
    /// Block the thread until woken; a0 receives the value.
    Park(i64),
    /// End the thread.
    Kill,
}

/// Whether the mapping engine can service a fault at `stval`: the page was
/// swapped out, and either an eviction needs no fresh frame or the
/// allocator still has one.
pub open spec fn spec_fault_serviceable(m: Mapping, fa: FrameAllocator, stval: u64) -> bool {
    &&& m.swapped().contains_key(stval / 4096)
    &&& (m.resident().dom().len() == m.quota()
        || fa.outstanding() < fa.capacity_spec())
}

/// Whether this trap ends the running thread: a dead mark, an exit request,
/// an unhandled cause, or a page fault the mapping cannot service.
pub open spec fn spec_trap_removes_thread(
    dead: bool,
    kind: TrapKind,
    syscall_result: SyscallResult,
    fault_serviceable: bool,
) -> bool {
    ||| dead
    ||| kind == TrapKind::Unknown
    ||| (kind == TrapKind::UserEnvCall && syscall_result == SyscallResult::Kill)
    ||| (spec_is_page_fault(kind) && !fault_serviceable)
}

/// The three page-fault exception kinds.
pub open spec fn spec_is_page_fault(kind: TrapKind) -> bool {
    ||| kind == TrapKind::LoadPageFault
    ||| kind == TrapKind::StorePageFault
    ||| kind == TrapKind::InstructionPageFault
}

/// The exit syscall: the thread ends.
pub fn sys_exit() -> (r: SyscallResult)
    ensures
        r == SyscallResult::Kill,
{
    SyscallResult::Kill
}

/// Interpret the outcome of a read on a descriptor: data proceeds, an empty
/// stream parks the reader, everything else reports failure.
pub fn sys_read_result(descriptor_found: bool, read_len: Option<i64>) -> (r: SyscallResult)
    ensures
        descriptor_found && (read_len matches Some(n) && n > 0)
            ==> r == SyscallResult::Proceed(read_len->Some_0),
        descriptor_found && read_len == Some(0i64) ==> r == SyscallResult::Park(0),
        !descriptor_found || read_len is None || (read_len matches Some(n) && n < 0)
            ==> r == SyscallResult::Proceed(-1i64),
{
    if descriptor_found {
        match read_len {
            Some(n) => {
                if n > 0 {
                    SyscallResult::Proceed(n)
                } else if n == 0 {
                    SyscallResult::Park(0)
                } else {
                    SyscallResult::Proceed(-1)
                }
            }
            None => SyscallResult::Proceed(-1),
        }
    } else {
        SyscallResult::Proceed(-1)
    }
}

/// Interpret the outcome of a write on a descriptor: a non-negative count
/// proceeds, everything else reports failure.
pub fn sys_write_result(descriptor_found: bool, write_len: Option<i64>) -> (r: SyscallResult)
    ensures
        descriptor_found && (write_len matches Some(n) && n >= 0)
            ==> r == SyscallResult::Proceed(write_len->Some_0),
        !descriptor_found || write_len is None || (write_len matches Some(n) && n < 0)
            ==> r == SyscallResult::Proceed(-1i64),
{
    if descriptor_found {
        match write_len {
            Some(n) => {
                if n >= 0 {
                    SyscallResult::Proceed(n)
                } else {
                    SyscallResult::Proceed(-1)
                }
            }
            None => SyscallResult::Proceed(-1),
        }
    } else {
        SyscallResult::Proceed(-1)
    }
}

impl Processor {
    /// Whether the running thread has been marked dead.
    pub fn current_is_dead(&self) -> (r: bool)
        requires
            self.inv(),
            self.current_thread is Some,
        ensures
            self.current_thread matches Some(id)
                ==> r == self.thread_of(id).inner.dead,
    {
        let id = self.current_thread();
        let index = match self.find_index(id) {
            Some(i) => i,
            None => {
                proof {
                    assert(false);
                }
                0
            }
        };
        proof {
            assert(self.thread_of(id) == self.threads@[index as int]);
        }
        self.threads[index].inner.dead
    }

    /// Route a page fault at `stval` into the running thread's address
    /// space.
    pub fn handle_page_fault_current(
        &mut self,
        fa: &mut FrameAllocator,
        store: &mut SwapStore,
        stval: u64,
    ) -> (r: Result<(), KernelError>)
        requires
            old(self).inv(),
            old(fa).inv(),
            old(store).inv(),
            old(self).current_thread matches Some(id) && {
                &&& old(self).thread_of(id).process.mapping.owned_by(*old(fa))
                &&& old(self).thread_of(id).process.mapping.consistent_with(*old(store))
                &&& old(self).thread_of(id).process.mapping.quota() > 0
            },
        ensures
            final(self).inv(),
            final(fa).inv(),
            final(store).inv(),
            final(fa).base_ppn == old(fa).base_ppn,
            final(fa).capacity_spec() == old(fa).capacity_spec(),
            final(self).current_thread == old(self).current_thread,
            final(self).idle_id == old(self).idle_id,
            final(self).scheduler.queue@ == old(self).scheduler.queue@,
            sleep_set_view(final(self).sleeping_threads)
                == sleep_set_view(old(self).sleeping_threads),
            old(self).current_thread matches Some(id)
                ==> final(self).has_thread(id)
                    && final(self).thread_of(id).inner.context
                        == old(self).thread_of(id).inner.context
                    && final(self).thread_of(id).inner.dead
                        == old(self).thread_of(id).inner.dead,
            forall|w: i64|
                old(self).has_thread(w) && Some(w) != old(self).current_thread
                    ==> final(self).has_thread(w)
                        && final(self).thread_of(w) == old(self).thread_of(w),
            // The outcome is exactly the mapping engine's on the running
            // thread's address space.
            old(self).current_thread matches Some(id) ==> {
                let m = old(self).thread_of(id).process.mapping;
                let m2 = final(self).thread_of(id).process.mapping;
                &&& (r is Ok <==> spec_fault_serviceable(m, *old(fa), stval))
                &&& ((r matches Err(e) && e == KernelError::VpnUnmapped)
                    <==> !m.swapped().contains_key(stval / 4096))
                &&& m2.owned_by(*final(fa))
                &&& m2.consistent_with(*final(store))
                &&& m2.quota() == m.quota()
                &&& (r is Ok ==> {
                    &&& m2.resident().contains_key(stval / 4096)
                    &&& forall|w: u64|
                            #[trigger] m.framed_mapped(w) ==> m2.framed_mapped(w)
                                && m2.page_bytes(*final(store), w)
                                    == m.page_bytes(*old(store), w)
                    &&& forall|w: u64| !m.framed_mapped(w) ==> !m2.framed_mapped(w)
                })
            },
            r matches Err(e)
                ==> (e == KernelError::VpnUnmapped || e == KernelError::OutOfFrames),
    {
        let ghost pre = *self;
        let id = self.current_thread();
        let index = match self.find_index(id) {
            Some(i) => i,
            None => {
                proof {
                    assert(false);
                }
                0
            }
        };
        proof {
            assert(pre.thread_of(id) == pre.threads@[index as int]);
        }
        let r = self.threads[index].process.mapping.handle_page_fault(
            fa,
            store,
            VirtualAddress(stval),
        );
        proof {
            let news = *self;
            let updated = news.threads@[index as int];
            assert(news.threads@ == pre.threads@.update(index as int, updated));
            assert(updated.id == id);
            assert(updated.inner == pre.threads@[index as int].inner);
            assert(updated.wf()) by {
                assert(updated.process.mapping.wf());
                assert forall|w: u64|
                    updated.process.va_cursor / 4096 <= w < crate::addr::VPN_LIMIT
                        implies updated.process.mapping.pte_of(w) == 0 by {
                    let premap = pre.threads@[index as int].process.mapping;
                    assert(premap.pte_of(w) == 0);
                    assert(!premap.framed_mapped(w)) by {
                        if premap.resident().contains_key(w) {
                            assert(crate::pte::spec_valid(premap.pte_of(w)));
                        }
                        if premap.swapped().contains_key(w) {
                            assert(premap.pte_of(w) != 0);
                        }
                    }
                }
            }
            assert forall|w: i64| pre.has_thread(w) implies news.has_thread(w) by {
                let i = choose|i: int|
                    0 <= i < pre.threads@.len() && pre.threads@[i].id == w;
                assert(news.threads@[i].id == w);
            }
            assert forall|w: i64|
                pre.has_thread(w) && w != id
                    implies news.thread_of(w) == pre.thread_of(w) by {
                let i = choose|i: int|
                    0 <= i < pre.threads@.len() && pre.threads@[i].id == w;
                assert(i != index);
                let j = choose|j: int|
                    0 <= j < news.threads@.len() && news.threads@[j].id == w;
                assert(j != index);
                assert(pre.threads@[j].id == w);
            }
            assert(news.thread_of(id) == updated) by {
                let j = choose|j: int|
                    0 <= j < news.threads@.len() && news.threads@[j].id == id;
                if j != index {
                    assert(pre.threads@[j].id == id);
                }
            }
            assert(news.inv()) by {
                assert forall|k: int|
                    0 <= k < news.scheduler.queue@.len()
                        && news.current_thread != Some(#[trigger] news.scheduler.queue@[k])
                        implies news.thread_of(news.scheduler.queue@[k]).inner.context
                            is Some by {
                    assert(news.scheduler.queue@[k] != id);
                    assert(pre.has_thread(news.scheduler.queue@[k]));
                }
                assert(news.has_thread(news.idle_id));
                if news.current_thread != Some(news.idle_id) {
                    assert(news.idle_id != id);
                    assert(news.thread_of(news.idle_id) == pre.thread_of(pre.idle_id));
                }
                assert forall|w: i64|
                    sleep_set_view(news.sleeping_threads).contains(w)
                        implies news.has_thread(w) by {
                    assert(pre.has_thread(w));
                }
            }
        }
        r
    }
}

/// Pick the next thread and hand back only the context address the
/// trampoline needs; the `satp` write happens inside the thread switch.
fn next_context(processor: &mut Processor, stack: &mut KernelStack) -> (r: Result<
    u64,
    KernelError,
>)
    requires
        old(processor).inv(),
        old(stack).wf(),
        old(processor).current_thread matches Some(c)
            ==> old(processor).thread_of(c).inner.context is Some,
    ensures
        final(processor).inv(),
        final(stack).wf(),
        final(stack).base == old(stack).base,
        r matches Ok(p)
            ==> p == old(stack).base + crate::stack::STACK_BYTES - crate::stack::CONTEXT_BYTES,
        r matches Err(e) ==> e == KernelError::NoRunnableThreads,
        r is Err <==> (old(processor).scheduler.queue@.len() == 0
            && sleep_set_view(old(processor).sleeping_threads) == Set::<i64>::empty()),
        sleep_set_view(final(processor).sleeping_threads)
            == sleep_set_view(old(processor).sleeping_threads),
        final(processor).idle_id == old(processor).idle_id,
        forall|w: i64| final(processor).has_thread(w) ==> old(processor).has_thread(w),
        r is Ok ==> (final(processor).current_thread matches Some(nid) && {
            &&& old(processor).has_thread(nid)
            &&& final(stack).top_context == old(processor).thread_of(nid).inner.context
            &&& final(processor).has_thread(nid)
            &&& final(processor).thread_of(nid).inner.context is None
            &&& forall|w: i64|
                    old(processor).has_thread(w) && w != nid
                        ==> final(processor).has_thread(w)
                            && final(processor).thread_of(w) == old(processor).thread_of(w)
        }),
        old(processor).scheduler.queue@.len() > 0 ==> r is Ok
            && final(processor).current_thread == Some(old(processor).scheduler.queue@[0])
            && final(processor).scheduler.queue@
                == spec_rotate(old(processor).scheduler.queue@),
        old(processor).scheduler.queue@.len() == 0
            ==> final(processor).scheduler.queue@ == old(processor).scheduler.queue@,
        old(processor).scheduler.queue@.len() == 0
            && sleep_set_view(old(processor).sleeping_threads) != Set::<i64>::empty()
            ==> r is Ok
                && final(processor).current_thread == Some(old(processor).idle_id),
{
    match processor.prepare_next_thread(stack) {
        Ok(p) => Ok(p.0),
        Err(e) => Err(e),
    }
}

/// Handle a clock interrupt: acknowledge the timer, park the running
/// thread's freshly saved context and switch to the next thread.
pub fn supervisor_timer(
    processor: &mut Processor,
    stack: &mut KernelStack,
    timer: &mut Timer,
    context: Context,
    now: u64,
) -> (r: Result<u64, KernelError>)
    requires
        old(processor).inv(),
        old(stack).wf(),
        context.wf(),
        old(timer).ticks < u64::MAX,
        now + TIMER_INTERVAL <= u64::MAX,
        old(processor).current_thread matches Some(id)
            && old(processor).thread_of(id).inner.context is None,
    ensures
        final(processor).inv(),
        final(stack).wf(),
        final(stack).base == old(stack).base,
        final(timer).ticks == old(timer).ticks + 1,
        r matches Ok(p)
            ==> p == old(stack).base + crate::stack::STACK_BYTES - crate::stack::CONTEXT_BYTES,
        r matches Err(e) ==> e == KernelError::NoRunnableThreads,
        // The switch fails exactly when nothing is ready and nothing sleeps.
        r is Err <==> (old(processor).scheduler.queue@.len() == 0
            && sleep_set_view(old(processor).sleeping_threads) == Set::<i64>::empty()),
        sleep_set_view(final(processor).sleeping_threads)
            == sleep_set_view(old(processor).sleeping_threads),
        // The front of the ready queue runs next and the queue rotates by
        // one round-robin step, so consecutive ticks walk the whole queue.
        old(processor).scheduler.queue@.len() > 0 ==> r is Ok
            && final(processor).current_thread
                == Some(old(processor).scheduler.queue@[0])
            && final(processor).scheduler.queue@
                == spec_rotate(old(processor).scheduler.queue@),
        old(processor).scheduler.queue@.len() == 0
            ==> final(processor).scheduler.queue@ == old(processor).scheduler.queue@,
        r is Ok ==> (final(processor).current_thread matches Some(nid)
            && final(processor).thread_of(nid).inner.context is None),
        // The saved context is parked in the interrupted thread, or sits at
        // the stack top again if that thread was immediately re-chosen.
        old(processor).current_thread matches Some(id) ==> (r is Ok ==> {
            &&& (final(processor).current_thread == Some(id)
                ==> final(stack).top_context == Some(context))
            &&& (final(processor).current_thread != Some(id)
                ==> final(processor).has_thread(id)
                    && final(processor).thread_of(id).inner.context == Some(context))
        }),
{
    let _deadline = timer.tick(now);
    let ghost cid = processor.current_thread->Some_0;
    processor.park_current_thread(context);
    let r = next_context(processor, stack);
    proof {
        if r is Ok {
            let nid = processor.current_thread->Some_0;
            if nid != cid {
                assert(processor.thread_of(cid).inner.context == Some(context));
            }
        }
    }
    r
}

/// Handle an external interrupt: buffer the character the console handed
/// over (carriage return becomes newline) and resume the same context.
pub fn supervisor_external(
    stdin: &mut StdinBuffer,
    stack: &mut KernelStack,
    context: Context,
    input: Option<u8>,
) -> (r: u64)
    requires
        old(stack).wf(),
    ensures
        final(stack).wf(),
        final(stack).base == old(stack).base,
        r == old(stack).base + crate::stack::STACK_BYTES - crate::stack::CONTEXT_BYTES,
        input matches Some(c)
            ==> final(stdin).queue@
                == old(stdin).queue@.push(if c == 13 { 10u8 } else { c }),
        input is None ==> final(stdin).queue@ == old(stdin).queue@,
        final(stack).top_context == Some(context),
{
    match input {
        Some(c) => {
            let byte = if c == 13 { 10 } else { c };
            stdin.push(byte);
        }
        None => {}
    }
    stack.push_context(context)
}

/// Handle a breakpoint: step past the `ebreak` instruction and resume.
pub fn breakpoint(stack: &mut KernelStack, context: Context) -> (r: u64)
    requires
        old(stack).wf(),
        context.wf(),
        context.sepc + 2 <= u64::MAX,
    ensures
        final(stack).wf(),
        final(stack).base == old(stack).base,
        r == old(stack).base + crate::stack::STACK_BYTES - crate::stack::CONTEXT_BYTES,
        final(stack).top_context matches Some(c) && {
            &&& c.sepc == context.sepc + 2
            &&& c.registers@ == context.registers@
            &&& c.sstatus == context.sstatus
        },
{
    let mut ctx = context;
    ctx.sepc = ctx.sepc + 2;
    stack.push_context(ctx)
}

/// The single entry from the trampoline.  `context` was just saved at the
/// kernel stack's top; `scause` and `stval` describe the trap; `now` is the
/// current time, `input` the character the console handed over for an
/// external interrupt, and `syscall_result` the outcome of the syscall
/// surface for an environment call.  Returns the address of the context the
/// trampoline must restore: the stack's top minus one context.
#[verifier::rlimit(100)]
#[verifier::spinoff_prover]
pub fn handle_interrupt(
    processor: &mut Processor,
    stack: &mut KernelStack,
    fa: &mut FrameAllocator,
    store: &mut SwapStore,
    timer: &mut Timer,
    stdin: &mut StdinBuffer,
    context: Context,
    scause: u64,
    stval: u64,
    now: u64,
    input: Option<u8>,
    syscall_result: SyscallResult,
) -> (r: Result<u64, KernelError>)
    requires
        old(processor).inv(),
        old(stack).wf(),
        old(fa).inv(),
        old(store).inv(),
        context.wf(),
        context.sepc + 4 <= u64::MAX,
        old(timer).ticks < u64::MAX,
        now + TIMER_INTERVAL <= u64::MAX,
        old(processor).current_thread matches Some(id) && {
            &&& id != old(processor).idle_id
                || spec_decode_scause(scause) == TrapKind::SupervisorTimer
                || spec_decode_scause(scause) == TrapKind::SupervisorExternal
                || spec_decode_scause(scause) == TrapKind::Breakpoint
            &&& !old(processor).thread_of(id).inner.dead || id != old(processor).idle_id
            &&& !sleep_set_view(old(processor).sleeping_threads).contains(id)
            &&& old(processor).thread_of(id).inner.context is None
            &&& old(processor).thread_of(id).process.mapping.owned_by(*old(fa))
            &&& old(processor).thread_of(id).process.mapping.consistent_with(*old(store))
            &&& old(processor).thread_of(id).process.mapping.quota() > 0
        },
    ensures
        final(processor).inv(),
        final(stack).wf(),
        final(stack).base == old(stack).base,
        final(fa).inv(),
        final(store).inv(),
        r matches Ok(p)
            ==> p == old(stack).base + crate::stack::STACK_BYTES - crate::stack::CONTEXT_BYTES,
        r matches Err(e) ==> e == KernelError::NoRunnableThreads,
        old(processor).current_thread matches Some(cid) ==> {
            let dead = old(processor).thread_of(cid).inner.dead;
            let kind = spec_decode_scause(scause);
            let m = old(processor).thread_of(cid).process.mapping;
            let serviceable = spec_fault_serviceable(m, *old(fa), stval);
            let removes = spec_trap_removes_thread(dead, kind, syscall_result, serviceable);
            let parks = !dead && kind == TrapKind::UserEnvCall
                && (syscall_result matches SyscallResult::Park(_));
            let oldq = old(processor).scheduler.queue@;
            let qafter = if removes || parks { spec_without(oldq, cid) } else { oldq };
            // The dispatcher fails exactly when, after this trap's own
            // bookkeeping, nothing is ready and nothing sleeps.
            &&& (r is Err <==> ((removes || (!dead && kind == TrapKind::SupervisorTimer))
                    && qafter.len() == 0
                    && sleep_set_view(old(processor).sleeping_threads)
                        == Set::<i64>::empty()))
            // A removed thread is gone for good; the remaining queue's
            // front runs next.
            &&& (removes ==> !final(processor).has_thread(cid))
            &&& (removes && qafter.len() > 0 ==> r is Ok
                && final(processor).current_thread == Some(qafter[0]))
            // Breakpoint: step past the instruction, touch nothing else.
            &&& (!dead && kind == TrapKind::Breakpoint ==> r is Ok
                && *final(processor) == *old(processor)
                && (final(stack).top_context matches Some(c2) && {
                    &&& c2.sepc == context.sepc + 2
                    &&& c2.registers@ == context.registers@
                    &&& c2.sstatus == context.sstatus
                }))
            // A completed syscall: step past `ecall`, return value in a0.
            &&& (!dead && kind == TrapKind::UserEnvCall ==> (
                syscall_result matches SyscallResult::Proceed(v) ==> r is Ok
                    && *final(processor) == *old(processor)
                    && (final(stack).top_context matches Some(c2) && {
                        &&& c2.sepc == context.sepc + 4
                        &&& c2.registers@ == context.registers@.update(10, v as u64)
                        &&& c2.sstatus == context.sstatus
                    })))
            // A blocking syscall: the thread parks with the updated context
            // and waits in the sleeping set.
            &&& (!dead && kind == TrapKind::UserEnvCall ==> (
                syscall_result matches SyscallResult::Park(v) ==> r is Ok
                    && final(processor).has_thread(cid)
                    && !final(processor).scheduler.queue@.contains(cid)
                    && sleep_set_view(final(processor).sleeping_threads)
                        == sleep_set_view(old(processor).sleeping_threads).insert(cid)
                    && (final(processor).thread_of(cid).inner.context matches Some(c2)
                        && {
                        &&& c2.sepc == context.sepc + 4
                        &&& c2.registers@ == context.registers@.update(10, v as u64)
                        &&& c2.sstatus == context.sstatus
                    })))
            // A serviced page fault: the faulting page is resident again,
            // every framed page keeps its bytes, the same context resumes.
            &&& (!dead && spec_is_page_fault(kind) && serviceable ==> r is Ok
                && final(stack).top_context == Some(context)
                && final(processor).has_thread(cid)
                && {
                    let m2 = final(processor).thread_of(cid).process.mapping;
                    &&& m2.resident().contains_key(stval / 4096)
                    &&& forall|w: u64|
                            #[trigger] m.framed_mapped(w) ==> m2.framed_mapped(w)
                                && m2.page_bytes(*final(store), w)
                                    == m.page_bytes(*old(store), w)
                })
            // A clock interrupt: the tick is counted, the saved context
            // parked (or restored at once if the thread is re-chosen), and
            // the ready queue's front runs next.
            &&& (!dead && kind == TrapKind::SupervisorTimer ==> {
                &&& final(timer).ticks == old(timer).ticks + 1
                &&& (r is Ok ==> {
                    &&& (final(processor).current_thread == Some(cid)
                        ==> final(stack).top_context == Some(context))
                    &&& (final(processor).current_thread != Some(cid)
                        ==> final(processor).has_thread(cid)
                            && final(processor).thread_of(cid).inner.context
                                == Some(context))
                    &&& (final(processor).current_thread matches Some(nid)
                        && final(processor).thread_of(nid).inner.context is None)
                })
                &&& (oldq.len() > 0 ==> r is Ok
                    && final(processor).current_thread == Some(oldq[0])
                    && final(processor).scheduler.queue@ == spec_rotate(oldq))
                &&& (oldq.len() == 0
                    ==> final(processor).scheduler.queue@ == oldq)
            })
            // Console input: the character lands in the buffer (carriage
            // return as newline) and the same context resumes.
            &&& (!dead && kind == TrapKind::SupervisorExternal ==> r is Ok
                && *final(processor) == *old(processor)
                && final(stack).top_context == Some(context)
                && (input matches Some(c)
                    ==> final(stdin).queue@
                        == old(stdin).queue@.push(if c == 13 { 10u8 } else { c }))
                && (input is None ==> final(stdin).queue@ == old(stdin).queue@))
            // On every switch away from the trapped thread, the restored
            // context is the chosen thread's saved one.
            &&& ((removes || parks) ==> (r is Ok ==> (
                final(processor).current_thread matches Some(nid) && {
                    &&& nid != cid
                    &&& old(processor).has_thread(nid)
                    &&& final(stack).top_context
                        == old(processor).thread_of(nid).inner.context
                    &&& old(processor).thread_of(nid).inner.context is Some
                })))
            // Only the paths that use them touch the clock, the input
            // buffer and the memory subsystems.
            &&& (dead || kind != TrapKind::SupervisorTimer
                ==> *final(timer) == *old(timer))
            &&& (dead || kind != TrapKind::SupervisorExternal
                ==> *final(stdin) == *old(stdin))
            &&& (dead || !spec_is_page_fault(kind)
                ==> *final(fa) == *old(fa) && *final(store) == *old(store))
        },
{
    let ghost cid = processor.current_thread->Some_0;
    let ghost oldq = processor.scheduler.queue@;
    // A thread that marked itself dead ends here, whatever the cause was.
    if processor.current_is_dead() {
        processor.kill_current_thread();
        return next_context(processor, stack);
    }
    match decode_scause(scause) {
        TrapKind::Breakpoint => Ok(breakpoint(stack, context)),
        TrapKind::UserEnvCall => {
            match syscall_result {
                SyscallResult::Proceed(value) => {
                    let mut ctx = context;
                    ctx.sepc = ctx.sepc + 4;
                    ctx.set_a0(value as u64);
                    Ok(stack.push_context(ctx))
                }
                SyscallResult::Park(value) => {
                    let mut ctx = context;
                    ctx.sepc = ctx.sepc + 4;
                    ctx.set_a0(value as u64);
                    processor.park_current_thread(ctx);
                    processor.sleep_current_thread();
                    proof {
                        assert(sleep_set_view(processor.sleeping_threads).contains(cid));
                        assert(sleep_set_view(processor.sleeping_threads)
                            != Set::<i64>::empty());
                    }
                    let ghost before_switch = *processor;
                    let r = next_context(processor, stack);
                    proof {
                        assert(r is Ok);
                        let nid = processor.current_thread->Some_0;
                        assert(nid != cid) by {
                            if before_switch.scheduler.queue@.len() > 0 {
                                assert(!before_switch.scheduler.queue@.contains(cid));
                            }
                        }
                        assert(!processor.scheduler.queue@.contains(cid)) by {
                            if before_switch.scheduler.queue@.len() > 0 {
                                lemma_rotate_contains(
                                    before_switch.scheduler.queue@, cid);
                            }
                        }
                    }
                    r
                }
                SyscallResult::Kill => {
                    processor.kill_current_thread();
                    next_context(processor, stack)
                }
            }
        }
        TrapKind::LoadPageFault
        | TrapKind::StorePageFault
        | TrapKind::InstructionPageFault => {
            match processor.handle_page_fault_current(fa, store, stval) {
                Ok(_) => Ok(stack.push_context(context)),
                Err(_) => {
                    // The faulting thread ends; the kernel and the other
                    // threads go on.
                    processor.kill_current_thread();
                    next_context(processor, stack)
                }
            }
        }
        TrapKind::SupervisorTimer => supervisor_timer(processor, stack, timer, context, now),
        TrapKind::SupervisorExternal => Ok(supervisor_external(stdin, stack, context, input)),
        TrapKind::Unknown => {
            processor.kill_current_thread();
            next_context(processor, stack)
        }
    }
}

} // verus!
