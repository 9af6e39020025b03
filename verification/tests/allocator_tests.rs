//! Allocator behaviour: conservation, reuse, exhaustion, the heap bitmap.

use sv39_kernel::allocator::{Allocator, BitmapVectorAllocator, StackedAllocator, VectorAllocator};
use sv39_kernel::frame::FrameAllocator;
use sv39_kernel::KernelError;

#[test]
fn stacked_allocator_hands_out_distinct_indices() {
    let mut a = StackedAllocator::new(4);
    let i0 = a.allocate().unwrap();
    let i1 = a.allocate().unwrap();
    let i2 = a.allocate().unwrap();
    let i3 = a.allocate().unwrap();
    let mut all = vec![i0, i1, i2, i3];
    all.sort();
    all.dedup();
    assert_eq!(all.len(), 4);
    assert!(a.allocate().is_none());
}

#[test]
fn stacked_allocator_reuses_freed_index_lifo() {
    let mut a = StackedAllocator::new(4);
    let i0 = a.allocate().unwrap();
    let _i1 = a.allocate().unwrap();
    a.dealloc(i0);
    assert_eq!(a.allocate(), Some(i0));
}

#[test]
fn frame_conservation_over_alloc_dealloc() {
    // Outstanding frames always equal allocations minus deallocations, and
    // no page is ever handed to two live holders.
    let mut fa = FrameAllocator::new(0x80000, 8);
    let mut live: Vec<u64> = Vec::new();
    for _ in 0..8 {
        let f = fa.allocate().unwrap();
        assert!(!live.contains(&f.ppn));
        live.push(f.ppn);
    }
    assert!(matches!(fa.allocate(), Err(KernelError::OutOfFrames)));
    let p = live.pop().unwrap();
    fa.dealloc(p);
    let f = fa.allocate().unwrap();
    assert!(!live.contains(&f.ppn));
    live.push(f.ppn);
    assert!(matches!(fa.allocate(), Err(KernelError::OutOfFrames)));
}

#[test]
fn fresh_frames_are_zero_filled() {
    let mut fa = FrameAllocator::new(0x80000, 2);
    let f = fa.allocate().unwrap();
    assert_eq!(f.data.len(), 4096);
    assert!(f.data.iter().all(|b| *b == 0));
}

#[test]
fn bitmap_allocator_respects_alignment() {
    let mut h = BitmapVectorAllocator::new(64);
    let a = h.allocate(3, 4).unwrap();
    assert_eq!(a % 4, 0);
    let b = h.allocate(3, 4).unwrap();
    assert_eq!(b % 4, 0);
    assert_ne!(a, b);
    h.dealloc(a, 3, 4);
    let c = h.allocate(3, 4).unwrap();
    assert_eq!(c, a);
}

#[test]
fn bitmap_allocator_handles_alignment_past_capacity() {
    // Only start 0 is a multiple of an alignment beyond the capacity; once
    // it is taken, nothing else can be probed.
    let mut h = BitmapVectorAllocator::new(64);
    assert_eq!(h.allocate(2, 1000), Some(0));
    assert_eq!(h.allocate(2, 1000), None);
}

#[test]
fn bitmap_allocator_runs_out() {
    let mut h = BitmapVectorAllocator::new(8);
    // Runs are probed strictly below capacity - size, as the scan stops
    // before the last start.
    assert!(h.allocate(4, 1).is_some());
    assert!(h.allocate(4, 1).is_none());
}
