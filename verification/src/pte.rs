//! Sv39 page-table entries.
//!
//! An entry is 64 bits: the low 10 bits are flags (valid, readable, writable,
//! executable, user, global, accessed, dirty, and two spare bits), the bits
//! above hold the physical page number.  An all-zero entry is empty.  A valid
//! entry whose R/W/X flags are all clear points at the next-level table.  A
//! swapped-out page keeps its flags in a non-empty entry with the valid bit
//! clear and the page number zeroed.

use vstd::prelude::*;
use crate::addr::{PhysicalPageNumber, PPN_LIMIT};

verus! {

/// Entry or mapping is present.
pub const FLAG_VALID: u64 = 1;

/// Page may be read.
pub const FLAG_READABLE: u64 = 2;

/// Page may be written.
pub const FLAG_WRITABLE: u64 = 4;

/// Page may be executed.
pub const FLAG_EXECUTABLE: u64 = 8;

/// Page is reachable from user mode.
pub const FLAG_USER: u64 = 16;

/// Mapping is global.
pub const FLAG_GLOBAL: u64 = 32;

/// Page was accessed.
pub const FLAG_ACCESSED: u64 = 64;

/// Page was written.
pub const FLAG_DIRTY: u64 = 128;

/// The flags occupy the low ten bits; the page number sits above them.
pub const FLAG_LIMIT: u64 = 1024;

/// The flag part of raw entry bits.
pub open spec fn spec_flags(bits: u64) -> u64 {
    bits % 1024
}

/// The page-number part of raw entry bits.
pub open spec fn spec_ppn(bits: u64) -> u64 {
    bits / 1024
}

/// Raw bits holding page number `ppn` and flags `flags`.
pub open spec fn spec_encode(ppn: u64, flags: u64) -> int {
    ppn * 1024 + flags
}

/// Whether the raw bits carry the valid flag.
pub open spec fn spec_valid(bits: u64) -> bool {
    bits % 2 == 1
}

/// Whether the raw bits point at a next-level table: valid with R, W and X
/// all clear.
pub open spec fn spec_link(bits: u64) -> bool {
    bits % 16 == 1
}

/// Splitting encoded bits back into page number and flags.
pub proof fn lemma_encode_decode(ppn: u64, flags: u64)
    requires
        ppn < PPN_LIMIT,
        flags < 1024,
    ensures
        spec_encode(ppn, flags) <= u64::MAX,
        spec_ppn((ppn * 1024 + flags) as u64) == ppn,
        spec_flags((ppn * 1024 + flags) as u64) == flags,
        ((ppn * 1024 + flags) as u64) % 2 == flags % 2,
        ((ppn * 1024 + flags) as u64) % 16 == flags % 16,
{
    assert(ppn * 1024 + flags <= u64::MAX) by (nonlinear_arith)
        requires
            ppn < 0x1000_0000_0000u64,
            flags < 1024,
    ;
    assert((ppn * 1024 + flags) / 1024 == ppn) by (nonlinear_arith)
        requires
            flags < 1024,
    ;
    assert((ppn * 1024 + flags) % 1024 == flags) by (nonlinear_arith)
        requires
            flags < 1024,
    ;
    assert((ppn * 1024 + flags) % 2 == flags % 2) by (nonlinear_arith);
    assert((ppn * 1024 + flags) % 16 == flags % 16) by (nonlinear_arith);
}

/// One Sv39 page-table entry.
#[derive(Clone, Copy, Debug, PartialEq, Eq, Structural)]
pub struct PageTableEntry {
    /// The raw 64-bit entry.
    pub bits: u64,
}

impl PageTableEntry {
    /// Build an entry: with a page number the valid flag is set; without one
    /// the flags are kept, the valid flag cleared and the page number zeroed
    /// (the shape of a swapped-out page).
    pub fn new(ppn: Option<PhysicalPageNumber>, flags: u64) -> (r: PageTableEntry)
        requires
            flags < 1024,
            ppn matches Some(p) ==> p.0 < PPN_LIMIT,
        ensures
            ppn matches Some(p) ==> {
                &&& r.bits == p.0 * 1024 + flags + 1 - flags % 2
                &&& spec_ppn(r.bits) == p.0
                &&& spec_flags(r.bits) == flags + 1 - flags % 2
                &&& spec_valid(r.bits)
                &&& (flags % 16 == 0 ==> spec_link(r.bits))
            },
            ppn is None ==> {
                &&& r.bits == (flags / 2) * 2
                &&& spec_ppn(r.bits) == 0
                &&& spec_flags(r.bits) == (flags / 2) * 2
                &&& !spec_valid(r.bits)
            },
    {
        match ppn {
            Some(p) => {
                let merged: u64 = flags | FLAG_VALID;
                proof {
                    assert(flags | 1u64 == flags + 1 - flags % 2) by (bit_vector);
                    lemma_encode_decode(p.0, merged);
                    assert((p.0 * 1024 + merged) % 1024 % 2 == merged % 2);
                    if flags % 16 == 0 {
                        assert((flags + 1) % 16 == 1) by (nonlinear_arith)
                            requires
                                flags % 16 == 0,
                        ;
                    }
                }
                PageTableEntry { bits: p.0 * 1024 + merged }
            }
            None => {
                let cleared: u64 = (flags / 2) * 2;
                proof {
                    lemma_encode_decode(0, cleared);
                }
                PageTableEntry { bits: cleared }
            }
        }
    }

    /// The empty entry.
    pub fn empty() -> (r: PageTableEntry)
        ensures
            r.bits == 0,
    {
        PageTableEntry { bits: 0 }
    }

    /// Whether every bit is zero.
    pub fn is_empty(&self) -> (r: bool)
        ensures
            r == (self.bits == 0),
    {
        self.bits == 0
    }

    /// Whether the valid flag is set.
    pub fn is_valid(&self) -> (r: bool)
        ensures
            r == spec_valid(self.bits),
    {
        self.bits % 2 == 1
    }

    /// Whether the entry points at a next-level table.
    pub fn has_next_level(&self) -> (r: bool)
        ensures
            r == spec_link(self.bits),
    {
        self.bits % 16 == 1
    }

    /// The page number stored in the entry.
    pub fn page_number(&self) -> (r: PhysicalPageNumber)
        ensures
            r.0 == spec_ppn(self.bits),
    {
        PhysicalPageNumber(self.bits / 1024)
    }

    /// The flag bits of the entry.
    pub fn flags(&self) -> (r: u64)
        ensures
            r == spec_flags(self.bits),
    {
        self.bits % 1024
    }

    /// Re-point the entry: with a page number the valid flag is set and the
    /// flags kept; without one the valid flag is cleared and the page number
    /// zeroed, keeping the other flags (a swap-out).
    pub fn update_page_number(&mut self, ppn: Option<PhysicalPageNumber>)
        requires
            ppn matches Some(p) ==> p.0 < PPN_LIMIT,
        ensures
            ppn matches Some(p) ==> {
                &&& final(self).bits == p.0 * 1024 + spec_flags(old(self).bits) + 1
                    - spec_flags(old(self).bits) % 2
                &&& spec_ppn(final(self).bits) == p.0
                &&& spec_flags(final(self).bits)
                    == spec_flags(old(self).bits) + 1 - spec_flags(old(self).bits) % 2
                &&& spec_valid(final(self).bits)
            },
            ppn is None ==> {
                &&& final(self).bits == (spec_flags(old(self).bits) / 2) * 2
                &&& spec_ppn(final(self).bits) == 0
                &&& spec_flags(final(self).bits) == (spec_flags(old(self).bits) / 2) * 2
                &&& !spec_valid(final(self).bits)
            },
    {
        let flags = self.bits % 1024;
        match ppn {
            Some(p) => {
                let merged: u64 = flags | FLAG_VALID;
                proof {
                    assert(flags | 1u64 == flags + 1 - flags % 2) by (bit_vector)
                        requires
                            flags < 1024,
                    ;
                    lemma_encode_decode(p.0, merged);
                    assert((p.0 * 1024 + merged) % 1024 % 2 == merged % 2);
                }
                self.bits = p.0 * 1024 + merged;
            }
            None => {
                let cleared: u64 = (flags / 2) * 2;
                proof {
                    lemma_encode_decode(0, cleared);
                }
                self.bits = cleared;
            }
        }
    }

    /// Zero the entry.
    pub fn clear(&mut self)
        ensures
            final(self).bits == 0,
    {
        self.bits = 0;
    }
}

} // verus!
