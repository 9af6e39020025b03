//! Addresses and page numbers.
//!
//! Four `u64` newtypes: physical and virtual addresses, physical and virtual
//! page numbers.  A page number is its address divided by the page size; a
//! virtual page number carries three 9-bit indices that drive an Sv39 walk.

use vstd::prelude::*;
use crate::config::{PAGE_SIZE_U64, KERNEL_LINEAR_OFFSET_PAGES};

verus! {

/// Largest valid Sv39 virtual page number bound: virtual addresses have
/// 39 bits, so page numbers have 27.
pub const VPN_LIMIT: u64 = 0x800_0000;

/// Bound on physical page numbers: the PPN field of a page-table entry has
/// 44 bits.
pub const PPN_LIMIT: u64 = 0x1000_0000_0000;

/// A physical byte address.
#[derive(Clone, Copy, Debug, PartialEq, Eq, Structural)]
pub struct PhysicalAddress(pub u64);

/// A virtual byte address.
#[derive(Clone, Copy, Debug, PartialEq, Eq, Structural)]
pub struct VirtualAddress(pub u64);

/// A physical page number: a physical address shifted right by 12.
#[derive(Clone, Copy, Debug, PartialEq, Eq, Structural)]
pub struct PhysicalPageNumber(pub u64);

/// A virtual page number: a virtual address shifted right by 12.
#[derive(Clone, Copy, Debug, PartialEq, Eq, Structural)]
pub struct VirtualPageNumber(pub u64);

impl VirtualAddress {
    /// The page this address lies in.
    pub fn page_number(self) -> (r: VirtualPageNumber)
        ensures
            r.0 == self.0 / PAGE_SIZE_U64,
    {
        VirtualPageNumber(self.0 / PAGE_SIZE_U64)
    }

    /// The offset of this address inside its page.
    pub fn page_offset(self) -> (r: u64)
        ensures
            r == self.0 % PAGE_SIZE_U64,
    {
        self.0 % PAGE_SIZE_U64
    }
}

impl VirtualPageNumber {
    /// The page containing `va` (round down).
    pub fn floor(va: VirtualAddress) -> (r: VirtualPageNumber)
        ensures
            r.0 == va.0 / PAGE_SIZE_U64,
    {
        VirtualPageNumber(va.0 / PAGE_SIZE_U64)
    }

    /// The first page at or after `va` (round up).
    pub fn ceil(va: VirtualAddress) -> (r: VirtualPageNumber)
        requires
            va.0 + PAGE_SIZE_U64 <= u64::MAX,
        ensures
            r.0 == (va.0 + PAGE_SIZE_U64 - 1) / (PAGE_SIZE_U64 as int),
    {
        VirtualPageNumber((va.0 + PAGE_SIZE_U64 - 1) / PAGE_SIZE_U64)
    }

    /// The first byte of this page.
    pub fn address(self) -> (r: VirtualAddress)
        requires
            self.0 < VPN_LIMIT,
        ensures
            r.0 == self.0 * PAGE_SIZE_U64,
    {
        VirtualAddress(self.0 * PAGE_SIZE_U64)
    }

    /// Index into the root page table: bits 18..27 of the page number.
    pub fn level2(self) -> (r: usize)
        ensures
            r == spec_level2(self.0),
            r < 512,
    {
        ((self.0 / 262144) % 512) as usize
    }

    /// Index into the middle page table: bits 9..18 of the page number.
    pub fn level1(self) -> (r: usize)
        ensures
            r == spec_level1(self.0),
            r < 512,
    {
        ((self.0 / 512) % 512) as usize
    }

    /// Index into the leaf page table: bits 0..9 of the page number.
    pub fn level0(self) -> (r: usize)
        ensures
            r == spec_level0(self.0),
            r < 512,
    {
        (self.0 % 512) as usize
    }

    /// The physical page a linearly mapped virtual page translates to.
    pub fn linear_ppn(self) -> (r: PhysicalPageNumber)
        requires
            self.0 >= KERNEL_LINEAR_OFFSET_PAGES,
        ensures
            r.0 == self.0 - KERNEL_LINEAR_OFFSET_PAGES,
    {
        PhysicalPageNumber(self.0 - KERNEL_LINEAR_OFFSET_PAGES)
    }
}

impl PhysicalPageNumber {
    /// The first byte of this physical page.
    pub fn address(self) -> (r: PhysicalAddress)
        requires
            self.0 < PPN_LIMIT,
        ensures
            r.0 == self.0 * PAGE_SIZE_U64,
    {
        PhysicalAddress(self.0 * PAGE_SIZE_U64)
    }
}

/// Root-level Sv39 index of a virtual page number.
pub open spec fn spec_level2(vpn: u64) -> int {
    (vpn as int / 262144int) % 512
}

/// Middle-level Sv39 index of a virtual page number.
pub open spec fn spec_level1(vpn: u64) -> int {
    (vpn as int / 512int) % 512
}

/// Leaf-level Sv39 index of a virtual page number.
pub open spec fn spec_level0(vpn: u64) -> int {
    vpn as int % 512int
}

/// Two in-range page numbers with the same three indices are the same page.
pub proof fn lemma_levels_injective(a: u64, b: u64)
    requires
        a < VPN_LIMIT,
        b < VPN_LIMIT,
        spec_level2(a) == spec_level2(b),
        spec_level1(a) == spec_level1(b),
        spec_level0(a) == spec_level0(b),
    ensures
        a == b,
{
    let ai = a as int;
    let bi = b as int;
    assert(ai == (ai / 262144int) * 262144 + ((ai / 512int) % 512) * 512 + ai % 512) by (nonlinear_arith);
    assert(bi == (bi / 262144int) * 262144 + ((bi / 512int) % 512) * 512 + bi % 512) by (nonlinear_arith);
    assert(ai / 262144int < 512 && bi / 262144int < 512) by (nonlinear_arith)
        requires
            0 <= ai < 0x800_0000,
            0 <= bi < 0x800_0000,
    ;
    assert((ai / 262144int) % 512 == ai / 262144int) by (nonlinear_arith)
        requires
            0 <= ai / 262144int < 512,
    ;
    assert((bi / 262144int) % 512 == bi / 262144int) by (nonlinear_arith)
        requires
            0 <= bi / 262144int < 512,
    ;
}

} // verus!
