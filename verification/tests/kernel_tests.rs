//! The executor: scheduler, processor, threads, condvar, dispatcher.

use sv39_kernel::condvar::Condvar;
use sv39_kernel::context::Context;
use sv39_kernel::frame::FrameAllocator;
use sv39_kernel::handler::{
    decode_scause, handle_interrupt, sys_exit, sys_read_result, sys_write_result, SyscallResult,
    TrapKind,
};
use sv39_kernel::processor::Processor;
use sv39_kernel::scheduler::RoundRobinScheduler;
use sv39_kernel::stack::KernelStack;
use sv39_kernel::stdin::StdinBuffer;
use sv39_kernel::swap::SwapStore;
use sv39_kernel::thread::{create_kernel_thread, Process, Thread};
use sv39_kernel::timer::Timer;
use sv39_kernel::KernelError;

const SCAUSE_TIMER: u64 = 0x8000_0000_0000_0000 + 5;
const SCAUSE_EXTERNAL: u64 = 0x8000_0000_0000_0000 + 9;
const SCAUSE_BREAKPOINT: u64 = 3;
const SCAUSE_ECALL: u64 = 8;
const SCAUSE_LOAD_FAULT: u64 = 13;

struct World {
    fa: FrameAllocator,
    store: SwapStore,
    stack: KernelStack,
    timer: Timer,
    stdin: StdinBuffer,
}

fn world() -> World {
    World {
        fa: FrameAllocator::new(0x80000, 4096),
        store: SwapStore::new(),
        stack: KernelStack::new(0x8030_0000),
        timer: Timer::new(),
        stdin: StdinBuffer::new(),
    }
}

fn kernel_thread(w: &mut World, id: i64) -> Thread {
    let process = Process::new_kernel(&mut w.fa, 8).unwrap();
    create_kernel_thread(id, process, 0x8040_0000, None, 0x8040_9000, &mut w.fa, &mut w.store)
        .unwrap()
}

fn dummy_context() -> Context {
    Context::new(0x8030_0000, 0x8040_0000, None, false)
}

fn processor_with(w: &mut World, ids: &[i64]) -> Processor {
    let idle = kernel_thread(w, 0);
    let mut processor = Processor::new(idle);
    for id in ids {
        let t = kernel_thread(w, *id);
        processor.add_thread(t);
    }
    processor
}

#[test]
fn scheduler_rotates_round_robin() {
    // With three always-ready threads, any three consecutive decisions run
    // each thread exactly once.
    let mut s = RoundRobinScheduler::new();
    s.add_thread(1);
    s.add_thread(2);
    s.add_thread(3);
    let mut seen = Vec::new();
    for _ in 0..6 {
        seen.push(s.get_next().unwrap());
    }
    assert_eq!(seen, vec![1, 2, 3, 1, 2, 3]);
    s.remove_thread(2);
    assert_eq!(s.get_next(), Some(1));
    assert_eq!(s.get_next(), Some(3));
    assert_eq!(s.get_next(), Some(1));
}

#[test]
fn context_carries_stack_entry_and_arguments() {
    let args = vec![7u64, 8, 9];
    let c = Context::new(0x1000, 0x2000, Some(&args), false);
    assert_eq!(c.sepc, 0x2000);
    assert_eq!(c.registers[2], 0x1000);
    assert_eq!(c.registers[10], 7);
    assert_eq!(c.registers[11], 8);
    assert_eq!(c.registers[12], 9);
    assert_eq!(c.sstatus, 0x120);
    let u = Context::new(0x1000, 0x2000, None, true);
    assert_eq!(u.sstatus, 0x20);
}

#[test]
fn kernel_thread_starts_in_supervisor_mode() {
    // A kernel thread's first context returns to supervisor mode with
    // interrupts enabled; its return address is the exit routine.
    let mut w = world();
    let t = kernel_thread(&mut w, 7);
    let c = t.inner.context.as_ref().unwrap();
    assert_eq!(c.sstatus, 0x120);
    assert_eq!(c.registers[1], 0x8040_9000);
    assert_eq!(c.registers[2], t.stack.end.0);
}

#[test]
fn push_context_returns_top_minus_context_size() {
    let mut stack = KernelStack::new(0x8030_0000);
    let ptr = stack.push_context(dummy_context());
    assert_eq!(ptr, 0x8030_0000 + 0x8_0000 - 272);
}

#[test]
fn scause_decoding_matches_the_architecture() {
    assert_eq!(decode_scause(SCAUSE_TIMER), TrapKind::SupervisorTimer);
    assert_eq!(decode_scause(SCAUSE_EXTERNAL), TrapKind::SupervisorExternal);
    assert_eq!(decode_scause(SCAUSE_BREAKPOINT), TrapKind::Breakpoint);
    assert_eq!(decode_scause(SCAUSE_ECALL), TrapKind::UserEnvCall);
    assert_eq!(decode_scause(12), TrapKind::InstructionPageFault);
    assert_eq!(decode_scause(SCAUSE_LOAD_FAULT), TrapKind::LoadPageFault);
    assert_eq!(decode_scause(15), TrapKind::StorePageFault);
    assert_eq!(decode_scause(2), TrapKind::Unknown);
}

#[test]
fn syscall_decisions_follow_the_rules() {
    assert_eq!(sys_exit(), SyscallResult::Kill);
    assert_eq!(sys_read_result(true, Some(5)), SyscallResult::Proceed(5));
    assert_eq!(sys_read_result(true, Some(0)), SyscallResult::Park(0));
    assert_eq!(sys_read_result(true, Some(-2)), SyscallResult::Proceed(-1));
    assert_eq!(sys_read_result(true, None), SyscallResult::Proceed(-1));
    assert_eq!(sys_read_result(false, Some(5)), SyscallResult::Proceed(-1));
    assert_eq!(sys_write_result(true, Some(0)), SyscallResult::Proceed(0));
    assert_eq!(sys_write_result(false, None), SyscallResult::Proceed(-1));
}

#[test]
fn three_threads_cycle_under_timer_ticks() {
    // Three kernel threads; after three clock interrupts the processor has
    // run each exactly once, in queue order.
    let mut w = world();
    let mut processor = processor_with(&mut w, &[1, 2, 3]);
    let (first, _satp) = processor.prepare_next_thread(&mut w.stack).unwrap();
    assert_eq!(first, w.stack.base + 0x8_0000 - 272);
    let mut ran = vec![processor.current_thread()];
    for tick in 0..3u64 {
        let r = handle_interrupt(
            &mut processor,
            &mut w.stack,
            &mut w.fa,
            &mut w.store,
            &mut w.timer,
            &mut w.stdin,
            dummy_context(),
            SCAUSE_TIMER,
            0,
            tick * 1000,
            None,
            SyscallResult::Proceed(0),
        )
        .unwrap();
        assert_eq!(r, w.stack.base + 0x8_0000 - 272);
        ran.push(processor.current_thread());
    }
    assert_eq!(ran, vec![1, 2, 3, 1]);
    assert_eq!(w.timer.ticks, 3);
}

#[test]
fn exited_thread_never_runs_again() {
    // An exit syscall kills the thread; the next prepared context belongs
    // to another thread.
    let mut w = world();
    let mut processor = processor_with(&mut w, &[1, 2]);
    processor.prepare_next_thread(&mut w.stack).unwrap();
    assert_eq!(processor.current_thread(), 1);
    handle_interrupt(
        &mut processor,
        &mut w.stack,
        &mut w.fa,
        &mut w.store,
        &mut w.timer,
        &mut w.stdin,
        dummy_context(),
        SCAUSE_ECALL,
        0,
        0,
        None,
        sys_exit(),
    )
    .unwrap();
    assert_ne!(processor.current_thread(), 1);
    assert_eq!(processor.current_thread(), 2);
    // And again through a tick: thread 1 stays gone.
    for tick in 0..4u64 {
        handle_interrupt(
            &mut processor,
            &mut w.stack,
            &mut w.fa,
            &mut w.store,
            &mut w.timer,
            &mut w.stdin,
            dummy_context(),
            SCAUSE_TIMER,
            0,
            tick,
            None,
            SyscallResult::Proceed(0),
        )
        .unwrap();
        assert_ne!(processor.current_thread(), 1);
    }
}

#[test]
fn fault_on_unmapped_address_kills_only_the_faulting_thread() {
    let mut w = world();
    let mut processor = processor_with(&mut w, &[1, 2]);
    processor.prepare_next_thread(&mut w.stack).unwrap();
    assert_eq!(processor.current_thread(), 1);
    let r = handle_interrupt(
        &mut processor,
        &mut w.stack,
        &mut w.fa,
        &mut w.store,
        &mut w.timer,
        &mut w.stdin,
        dummy_context(),
        SCAUSE_LOAD_FAULT,
        0x7777_7000,
        0,
        None,
        SyscallResult::Proceed(0),
    );
    assert!(r.is_ok());
    assert_eq!(processor.current_thread(), 2);
    // The survivor keeps running across further ticks.
    handle_interrupt(
        &mut processor,
        &mut w.stack,
        &mut w.fa,
        &mut w.store,
        &mut w.timer,
        &mut w.stdin,
        dummy_context(),
        SCAUSE_TIMER,
        0,
        0,
        None,
        SyscallResult::Proceed(0),
    )
    .unwrap();
    assert_eq!(processor.current_thread(), 2);
}

#[test]
fn breakpoint_skips_the_instruction() {
    let mut w = world();
    let mut processor = processor_with(&mut w, &[1]);
    processor.prepare_next_thread(&mut w.stack).unwrap();
    let r = handle_interrupt(
        &mut processor,
        &mut w.stack,
        &mut w.fa,
        &mut w.store,
        &mut w.timer,
        &mut w.stdin,
        dummy_context(),
        SCAUSE_BREAKPOINT,
        0,
        0,
        None,
        SyscallResult::Proceed(0),
    )
    .unwrap();
    assert_eq!(r, w.stack.base + 0x8_0000 - 272);
    match &w.stack.top_context {
        Some(c) => assert_eq!(c.sepc, 0x8040_0000 + 2),
        None => panic!("no context at the stack top"),
    }
}

#[test]
fn external_interrupt_buffers_console_input() {
    let mut w = world();
    let mut processor = processor_with(&mut w, &[1]);
    processor.prepare_next_thread(&mut w.stack).unwrap();
    for byte in [b'h', 13u8] {
        handle_interrupt(
            &mut processor,
            &mut w.stack,
            &mut w.fa,
            &mut w.store,
            &mut w.timer,
            &mut w.stdin,
            dummy_context(),
            SCAUSE_EXTERNAL,
            0,
            0,
            Some(byte),
            SyscallResult::Proceed(0),
        )
        .unwrap();
    }
    assert_eq!(w.stdin.pop(), Some(b'h'));
    assert_eq!(w.stdin.pop(), Some(b'\n'));
    assert_eq!(w.stdin.pop(), None);
}

#[test]
fn idle_thread_runs_when_all_threads_sleep() {
    let mut w = world();
    let mut processor = processor_with(&mut w, &[1]);
    processor.prepare_next_thread(&mut w.stack).unwrap();
    let mut cv = Condvar::new();
    processor.park_current_thread(dummy_context());
    cv.wait(&mut processor);
    processor.prepare_next_thread(&mut w.stack).unwrap();
    assert_eq!(processor.current_thread(), 0);
    // Waking the sleeper puts it back on the ready queue.
    cv.notify_one(&mut processor);
    processor.park_current_thread(dummy_context());
    processor.prepare_next_thread(&mut w.stack).unwrap();
    assert_eq!(processor.current_thread(), 1);
}

#[test]
fn no_runnable_threads_is_reported() {
    let mut w = world();
    let idle = kernel_thread(&mut w, 0);
    let mut processor = Processor::new(idle);
    assert!(matches!(
        processor.prepare_next_thread(&mut w.stack),
        Err(KernelError::NoRunnableThreads)
    ));
}

#[test]
fn thread_stacks_do_not_overlap() {
    let mut w = world();
    let mut p = Process::new_kernel(&mut w.fa, 8).unwrap();
    let r1 = p.alloc_page_range(&mut w.fa, &mut w.store, 0x8_0000, 6).unwrap();
    let r2 = p.alloc_page_range(&mut w.fa, &mut w.store, 0x8_0000, 6).unwrap();
    assert_eq!(r1.end.0, r2.start.0);
    assert!(r1.start.0 < r1.end.0);
}
