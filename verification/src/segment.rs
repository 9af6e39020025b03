//! Virtual-address ranges and segments.
//!
//! A segment is a contiguous virtual range with one map type and one flag
//! set.  `Linear` maps each page to itself shifted by the kernel offset;
//! `Framed` backs pages with allocated frames on demand.  Mapping a segment
//! with initialization data fills each covered page from the data, zero
//! outside the overlap; the contribution formula is stated here once and the
//! mapping engine's contracts reuse it.

use vstd::prelude::*;
use crate::addr::{VirtualAddress, VirtualPageNumber, VPN_LIMIT};
use crate::config::{PAGE_SIZE, PAGE_SIZE_U64};
use crate::frame::zero_page;

verus! {

/// A half-open range of virtual addresses.
#[derive(Clone, Copy, Debug, PartialEq, Eq, Structural)]
pub struct Range {
    /// First address of the range.
    pub start: VirtualAddress,
    /// First address past the range.
    pub end: VirtualAddress,
}

impl Range {
    /// A range never runs backwards.
    pub open spec fn wf(&self) -> bool {
        self.start.0 <= self.end.0
    }

    /// How many bytes the range covers.
    pub open spec fn spec_len(&self) -> int {
        self.end.0 - self.start.0
    }

    /// How many bytes the range covers.
    pub fn len(&self) -> (r: u64)
        requires
            self.wf(),
        ensures
            r == self.spec_len(),
    {
        self.end.0 - self.start.0
    }

    /// Whether `va` lies in the range.
    pub fn contains(&self, va: VirtualAddress) -> (r: bool)
        ensures
            r == (self.start.0 <= va.0 < self.end.0),
    {
        self.start.0 <= va.0 && va.0 < self.end.0
    }
}

/// How a segment's pages translate to physical pages.
#[derive(Clone, Copy, Debug, PartialEq, Eq, Structural)]
pub enum MapType {
    /// Page number maps to itself shifted by the kernel offset.
    Linear,
    /// Pages are backed by allocated frames, swapped on demand.
    Framed,
}

/// A contiguous virtual range with one map type and one flag set.
#[derive(Clone, Copy, Debug, PartialEq, Eq, Structural)]
pub struct Segment {
    /// How the segment's pages translate.
    pub map_type: MapType,
    /// The covered virtual addresses.
    pub range: Range,
    /// The page-table flags of every page of the segment.
    pub flags: u64,
}

/// First virtual page a segment covers.
pub open spec fn spec_start_vpn(seg: Segment) -> int {
    (seg.range.start.0 as int) / (PAGE_SIZE_U64 as int)
}

/// First virtual page past a segment.
pub open spec fn spec_end_vpn(seg: Segment) -> int {
    (seg.range.end.0 + PAGE_SIZE_U64 - 1) / (PAGE_SIZE_U64 as int)
}

impl Segment {
    /// A segment is well formed when its range is, it covers page numbers
    /// inside the Sv39 space, its flags fit the flag field with the valid
    /// bit left for the mapping engine, and it is not empty.
    pub open spec fn wf(&self) -> bool {
        &&& self.range.wf()
        &&& self.range.start.0 < self.range.end.0
        &&& spec_end_vpn(*self) <= VPN_LIMIT
        &&& self.flags < 1024
        &&& self.flags % 2 == 0
        &&& self.flags / 2 > 0
    }

    /// The first covered virtual page and the first page past the segment.
    pub fn page_range(&self) -> (r: (VirtualPageNumber, VirtualPageNumber))
        requires
            self.wf(),
        ensures
            r.0.0 == spec_start_vpn(*self),
            r.1.0 == spec_end_vpn(*self),
            r.0.0 < r.1.0,
    {
        let start = VirtualPageNumber::floor(self.range.start);
        let end = VirtualPageNumber::ceil(self.range.end);
        proof {
            assert(self.range.start.0 / PAGE_SIZE_U64
                < (self.range.end.0 + PAGE_SIZE_U64 - 1) / (PAGE_SIZE_U64 as int))
                by (nonlinear_arith)
                requires
                    self.range.start.0 < self.range.end.0,
                    PAGE_SIZE_U64 == 4096,
            ;
        }
        (start, end)
    }
}

/// The byte at offset `k` of page `vpn` after a segment is initialized with
/// `data`: where the segment's window overlaps the page it contributes its
/// bytes, everything else is zero.
pub open spec fn spec_page_byte(seg: Segment, data: Seq<u8>, vpn: int, k: int) -> u8 {
    let pa = vpn * (PAGE_SIZE_U64 as int);
    let lo = if seg.range.start.0 > pa { seg.range.start.0 - pa } else { 0 };
    let hi = if seg.range.end.0 - pa < PAGE_SIZE_U64 as int {
        seg.range.end.0 - pa
    } else {
        PAGE_SIZE_U64 as int
    };
    if lo <= k < hi {
        data[pa + k - seg.range.start.0]
    } else {
        0u8
    }
}

/// Build the page of bytes that `vpn` receives when `seg` is initialized
/// with `data`.
pub fn build_page_data(seg: &Segment, data: &Vec<u8>, vpn: VirtualPageNumber) -> (r: Vec<u8>)
    requires
        seg.wf(),
        spec_start_vpn(*seg) <= vpn.0 < spec_end_vpn(*seg),
        data@.len() == seg.range.spec_len(),
    ensures
        r@.len() == PAGE_SIZE,
        forall|k: int| 0 <= k < PAGE_SIZE ==> r@[k] == spec_page_byte(*seg, data@, vpn.0 as int, k),
{
    let mut page = zero_page();
    let pa: u64 = vpn.0 * PAGE_SIZE_U64;
    proof {
        assert(data.len() == data@.len());
        assert(vpn.0 * PAGE_SIZE_U64 < seg.range.end.0
            && seg.range.start.0 < vpn.0 * PAGE_SIZE_U64 + PAGE_SIZE_U64) by (nonlinear_arith)
            requires
                seg.range.start.0 / PAGE_SIZE_U64 <= vpn.0,
                vpn.0 < (seg.range.end.0 + PAGE_SIZE_U64 - 1) / (PAGE_SIZE_U64 as int),
                vpn.0 < 0x800_0000u64,
                seg.range.start.0 < seg.range.end.0,
                PAGE_SIZE_U64 == 4096,
        ;
    }
    let lo: u64 = if seg.range.start.0 > pa { seg.range.start.0 - pa } else { 0 };
    let hi: u64 = if seg.range.end.0 - pa < PAGE_SIZE_U64 {
        seg.range.end.0 - pa
    } else {
        PAGE_SIZE_U64
    };
    let mut k: u64 = lo;
    while k < hi
        invariant
            seg.wf(),
            data@.len() == seg.range.spec_len(),
            pa == vpn.0 * PAGE_SIZE_U64,
            pa < seg.range.end.0,
            seg.range.start.0 < pa + PAGE_SIZE_U64,
            lo == (if seg.range.start.0 > pa { seg.range.start.0 - pa } else { 0int }),
            hi <= PAGE_SIZE_U64,
            hi == (if seg.range.end.0 - pa < PAGE_SIZE_U64 as int {
                seg.range.end.0 - pa
            } else {
                PAGE_SIZE_U64 as int
            }),
            lo <= k <= hi,
            data@.len() <= usize::MAX,
            page@.len() == PAGE_SIZE,
            forall|j: int| 0 <= j < lo ==> page@[j] == 0u8,
            forall|j: int| lo <= j < k ==> page@[j] == data@[pa + j - seg.range.start.0],
            forall|j: int| k <= j < PAGE_SIZE ==> page@[j] == 0u8,
        decreases hi - k,
    {
        proof {
            assert(pa + k < seg.range.end.0);
            assert(pa + k >= seg.range.start.0);
            assert(pa + k - seg.range.start.0 < data@.len());
        }
        let src: u64 = pa + k - seg.range.start.0;
        page.set(k as usize, data[src as usize]);
        k = k + 1;
    }
    proof {
        assert forall|k2: int| 0 <= k2 < PAGE_SIZE implies
            page@[k2] == spec_page_byte(*seg, data@, vpn.0 as int, k2) by {
        }
    }
    page
}

/// Perform the byte copy of a `Linear` segment's initialization into the
/// identity-mapped memory it covers, modelled as a window of bytes starting
/// at address `base`.
pub fn copy_linear_data(memory: &mut Vec<u8>, base: u64, seg: &Segment, data: &Vec<u8>)
    requires
        seg.wf(),
        base <= seg.range.start.0,
        data@.len() <= seg.range.spec_len(),
        seg.range.start.0 - base + data@.len() <= old(memory)@.len(),
    ensures
        final(memory)@.len() == old(memory)@.len(),
        forall|j: int|
            0 <= j < data@.len()
                ==> final(memory)@[seg.range.start.0 - base + j] == data@[j],
        forall|j: int|
            0 <= j < old(memory)@.len()
                && !(seg.range.start.0 - base <= j < seg.range.start.0 - base + data@.len())
                ==> final(memory)@[j] == old(memory)@[j],
{
    proof {
        assert(old(memory).len() == old(memory)@.len());
    }
    let offset: u64 = seg.range.start.0 - base;
    let mut j: usize = 0;
    while j < data.len()
        invariant
            offset == seg.range.start.0 - base,
            offset + data@.len() <= memory@.len(),
            memory@.len() <= usize::MAX,
            data@.len() <= usize::MAX,
            j <= data@.len(),
            memory@.len() == old(memory)@.len(),
            forall|i: int| 0 <= i < j ==> memory@[offset + i] == data@[i],
            forall|i: int|
                0 <= i < memory@.len() && !(offset <= i < offset + data@.len())
                    ==> memory@[i] == old(memory)@[i],
            forall|i: int|
                offset + j <= i < offset + data@.len() ==> memory@[i] == old(memory)@[i],
        decreases data@.len() - j,
    {
        proof {
            assert(offset + j < memory@.len());
        }
        memory.set(offset as usize + j, data[j]);
        j = j + 1;
    }
}

} // verus!
