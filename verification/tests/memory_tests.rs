//! The mapping engine: segment mapping, demand paging, the swap store.

use sv39_kernel::addr::{PhysicalPageNumber, VirtualAddress, VirtualPageNumber};
use sv39_kernel::frame::FrameAllocator;
use sv39_kernel::mapping::Mapping;
use sv39_kernel::pte::{PageTableEntry, FLAG_READABLE, FLAG_WRITABLE};
use sv39_kernel::segment::{copy_linear_data, MapType, Range, Segment};
use sv39_kernel::swap::{SwapStore, SwapTracker};
use sv39_kernel::swapper::Swapper;
use sv39_kernel::KernelError;

const RW: u64 = FLAG_READABLE + FLAG_WRITABLE;

fn framed_segment(base: u64, pages: u64) -> Segment {
    Segment {
        map_type: MapType::Framed,
        range: Range {
            start: VirtualAddress(base),
            end: VirtualAddress(base + pages * 4096),
        },
        flags: RW,
    }
}

#[test]
fn pte_encodes_and_decodes() {
    let e = PageTableEntry::new(Some(PhysicalPageNumber(0x1234)), RW);
    assert_eq!(e.bits, 0x1234 * 1024 + RW + 1);
    assert_eq!(e.page_number().0, 0x1234);
    assert_eq!(e.flags(), RW + 1);
    assert!(e.is_valid());
    assert!(!e.has_next_level());
    let swapped = PageTableEntry::new(None, RW);
    assert_eq!(swapped.bits, RW);
    assert!(!swapped.is_valid());
    assert!(!swapped.is_empty());
    assert_eq!(swapped.page_number().0, 0);
}

#[test]
fn vpn_levels_split_nine_bits_each() {
    let vpn = VirtualPageNumber((3 << 18) | (5 << 9) | 7);
    assert_eq!(vpn.level2(), 3);
    assert_eq!(vpn.level1(), 5);
    assert_eq!(vpn.level0(), 7);
}

#[test]
fn linear_segment_maps_identity_and_copies_bytes() {
    // A linear segment over [0x8020_0000, 0x8020_3000) with bytes
    // 0, 1, 2, ...: afterwards every byte at va + i reads i mod 256 and the
    // walk translates each address to itself.
    let mut fa = FrameAllocator::new(0x80000, 64);
    let mut store = SwapStore::new();
    let mut m = Mapping::new(&mut fa, 4).unwrap();
    let seg = Segment {
        map_type: MapType::Linear,
        range: Range {
            start: VirtualAddress(0x8020_0000),
            end: VirtualAddress(0x8020_3000),
        },
        flags: RW,
    };
    let n = 0x3000usize;
    let data: Vec<u8> = (0..n).map(|i| (i % 256) as u8).collect();
    m.map(&mut fa, &mut store, &seg, Some(&data)).unwrap();
    for page in 0..3u64 {
        let pa = m.lookup(VirtualAddress(0x8020_0000 + page * 4096 + 17)).unwrap();
        assert_eq!(pa.0, 0x8020_0000 + page * 4096 + 17);
    }
    // The identity-mapped byte copy, modelled over a memory window.
    let mut memory = vec![0u8; n];
    copy_linear_data(&mut memory, 0x8020_0000, &seg, &data);
    for i in 0..n {
        assert_eq!(memory[i], (i % 256) as u8);
    }
}

#[test]
fn framed_mapping_swaps_oldest_page_on_fault() {
    // Quota 2, four framed pages with distinct fill bytes: pages 0 and 1
    // come up resident, 2 and 3 go to swap.  A fault on page 2 evicts
    // page 0 into swap and reuses its frame.
    let base = 0x4000_0000u64;
    let mut fa = FrameAllocator::new(0x80000, 64);
    let mut store = SwapStore::new();
    let mut m = Mapping::new(&mut fa, 2).unwrap();
    let seg = framed_segment(base, 4);
    let mut data = Vec::new();
    for page in 0..4u64 {
        data.extend(std::iter::repeat(0x11u8 * page as u8).take(4096));
    }
    m.map(&mut fa, &mut store, &seg, Some(&data)).unwrap();
    let vpn = |p: u64| base / 4096 + p;
    assert!(m.mapped_pairs.find(vpn(0)).is_some());
    assert!(m.mapped_pairs.find(vpn(1)).is_some());
    assert!(m.mapped_pairs.find(vpn(2)).is_none());
    assert!(m.mapped_pairs.find(vpn(3)).is_none());
    assert!(m.lookup(VirtualAddress(base)).is_some());
    assert!(m.lookup(VirtualAddress(base + 2 * 4096)).is_none());
    let frame0 = m.mapped_pairs.find(vpn(0)).unwrap().ppn;

    m.handle_page_fault(&mut fa, &mut store, VirtualAddress(base + 2 * 4096)).unwrap();

    // Page 0 is out: its entry is invalid but not empty.
    assert!(m.lookup(VirtualAddress(base)).is_none());
    let e0 = m.find_entry(&mut fa, VirtualPageNumber(vpn(0))).unwrap();
    assert!(!e0.is_empty());
    assert!(!e0.is_valid());
    // Page 2 is in, reusing page 0's frame, with its own bytes.
    let f2 = m.mapped_pairs.find(vpn(2)).unwrap();
    assert_eq!(f2.ppn, frame0);
    assert!(f2.data.iter().all(|b| *b == 0x22));
    let pa2 = m.lookup(VirtualAddress(base + 2 * 4096 + 5)).unwrap();
    assert_eq!(pa2.0, frame0 * 4096 + 5);
}

#[test]
fn paging_round_trip_preserves_contents() {
    // Sixty-four pages, quota 4: after ten thousand faults on the swapped
    // part of the working set, every page still carries its fill pattern.
    let base = 0x5000_0000u64;
    let mut fa = FrameAllocator::new(0x90000, 256);
    let mut store = SwapStore::new();
    let mut m = Mapping::new(&mut fa, 4).unwrap();
    let seg = framed_segment(base, 64);
    let mut data = Vec::new();
    for page in 0..64u64 {
        data.extend(std::iter::repeat((page * 3 + 1) as u8).take(4096));
    }
    m.map(&mut fa, &mut store, &seg, Some(&data)).unwrap();
    let mut faults = 0u64;
    let mut page = 0u64;
    while faults < 10_000 {
        page = (page + 13) % 64;
        let va = VirtualAddress(base + page * 4096);
        if m.lookup(va).is_none() {
            m.handle_page_fault(&mut fa, &mut store, va).unwrap();
            faults += 1;
        }
    }
    // Fault every page in once more and check its bytes.
    for page in 0..64u64 {
        let va = VirtualAddress(base + page * 4096);
        if m.lookup(va).is_none() {
            m.handle_page_fault(&mut fa, &mut store, va).unwrap();
        }
        let f = m.mapped_pairs.find(base / 4096 + page).unwrap();
        assert!(f.data.iter().all(|b| *b == (page * 3 + 1) as u8));
    }
}

#[test]
fn fault_on_unmapped_page_reports_vpn_unmapped() {
    let mut fa = FrameAllocator::new(0x80000, 16);
    let mut store = SwapStore::new();
    let mut m = Mapping::new(&mut fa, 2).unwrap();
    let r = m.handle_page_fault(&mut fa, &mut store, VirtualAddress(0x7777_7000));
    assert_eq!(r, Err(KernelError::VpnUnmapped));
}

#[test]
fn unmap_clears_entries_and_returns_frames() {
    let base = 0x4100_0000u64;
    let mut fa = FrameAllocator::new(0x80000, 64);
    let mut store = SwapStore::new();
    let mut m = Mapping::new(&mut fa, 2).unwrap();
    let seg = framed_segment(base, 4);
    m.map(&mut fa, &mut store, &seg, None).unwrap();
    let freed = m.unmap(&mut store, &seg);
    assert_eq!(freed.len(), 2);
    for (vpn, frame) in &freed {
        assert!(base / 4096 <= *vpn && *vpn < base / 4096 + 4);
        fa.dealloc(frame.ppn);
    }
    for page in 0..4u64 {
        assert!(m.lookup(VirtualAddress(base + page * 4096)).is_none());
        assert!(m.mapped_pairs.find(base / 4096 + page).is_none());
    }
}

#[test]
fn swap_store_runs_out_of_slots_at_capacity() {
    let mut store = SwapStore::new();
    let mut trackers = Vec::new();
    for _ in 0..4096 {
        trackers.push(SwapTracker::new(&mut store).unwrap());
    }
    assert!(matches!(
        SwapTracker::new(&mut store),
        Err(KernelError::OutOfSwapSlots)
    ));
    let t = trackers.pop().unwrap();
    t.release(&mut store);
    assert!(SwapTracker::new(&mut store).is_ok());
}

#[test]
fn swap_slot_read_returns_last_write() {
    let mut store = SwapStore::new();
    let t = SwapTracker::new(&mut store).unwrap();
    let page = vec![0xabu8; 4096];
    t.write(&mut store, &page);
    assert_eq!(t.read(&store), page);
}
