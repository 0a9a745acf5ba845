use vstd::prelude::*;
use crate::memory::{Frame, MAX_FRAME};
use vstd::arithmetic::power2::lemma2_to64;
use vstd::bits::lemma_u64_shl_is_mul;

verus! {

/// The entry maps something; its other bits count only when this one is set.
pub const PRESENT: u64 = 1;

pub const WRITABLE: u64 = 2;

pub const USER: u64 = 4;

pub const WRT_THROUGH: u64 = 8;

pub const NO_CACHE: u64 = 16;

pub const ACCESSED: u64 = 32;

pub const DIRTY: u64 = 64;

/// At level 3 or 2, the entry maps a 1 GiB or 2 MiB page instead of a table.
pub const HUGE_PAGE: u64 = 128;

pub const GLOBAL: u64 = 256;

pub const NO_EXECUTE: u64 = 0x8000_0000_0000_0000;

/// The bits of an entry that hold the physical address of its frame.
pub const ADDRESS_MASK: u64 = 0x000F_FFFF_FFFF_F000;

/// One 64-bit page-table entry: flag bits and a frame address.
#[derive(Debug, Clone, Copy, PartialEq, Eq, Structural)]
pub struct Entry {
    pub bits: u64,
}

/// The entry's present bit is set.
pub open spec fn entry_present(e: Entry) -> bool {
    e.bits & PRESENT != 0
}

/// The entry's huge-page bit is set.
pub open spec fn entry_huge(e: Entry) -> bool {
    e.bits & HUGE_PAGE != 0
}

/// Number of the frame whose address the entry holds.
pub open spec fn entry_frame(e: Entry) -> u64 {
    (e.bits & ADDRESS_MASK) >> 12u64
}

/// Flag bits only: nothing in the address field.
pub open spec fn is_flag_set(flags: u64) -> bool {
    flags & ADDRESS_MASK == 0
}

/// The entry that maps frame number `f` with `flags`.
pub open spec fn entry_for(f: u64, flags: u64) -> Entry {
    Entry { bits: (f << 12u64) | flags }
}

impl Entry {
    /// An unused entry.
    pub fn new() -> (r: Entry)
        ensures
            r.bits == 0,
    {
        Entry { bits: 0 }
    }

    /// Makes the entry unused.
    pub fn clear(&mut self)
        ensures
            final(self).bits == 0,
    {
        self.bits = 0;
    }

    /// The entry as a 64-bit word.
    pub fn raw(&self) -> (r: u64)
        ensures
            r == self.bits,
    {
        self.bits
    }

    /// The entry is all zero.
    pub fn is_unused(&self) -> (r: bool)
        ensures
            r == (self.bits == 0),
    {
        self.bits == 0
    }

    /// Every bit of `flags` is set in the entry.
    pub fn contains(&self, flags: u64) -> (r: bool)
        ensures
            r == (self.bits & flags == flags),
    {
        self.bits & flags == flags
    }

    /// Points the entry at `frame` with exactly `flags`.
    pub fn set(&mut self, frame: Frame, flags: u64)
        requires
            frame.number <= MAX_FRAME,
        ensures
            *final(self) == entry_for(frame.number, flags),
    {
        let address = frame.address();
        proof {
            lemma_shl_12(frame.number);
        }
        self.bits = address | flags;
    }

    /// The frame that a present entry points at.
    pub fn frame(&self) -> (r: Option<Frame>)
        ensures
            r == (if entry_present(*self) {
                Some(Frame { number: entry_frame(*self) })
            } else {
                None
            }),
    {
        if self.bits & PRESENT != 0 {
            Some(Frame { number: (self.bits & ADDRESS_MASK) >> 12 })
        } else {
            None
        }
    }
}

/// Shifting a frame number left by twelve gives its address.
pub proof fn lemma_shl_12(n: u64)
    requires
        n <= MAX_FRAME,
    ensures
        n << 12u64 == n * 4096,
{
    lemma2_to64();
    lemma_u64_shl_is_mul(n, 12);
}

/// An entry built from a frame below 2^40 and a set of flag bits holds that
/// frame, and is present and huge as the flags say.
pub proof fn lemma_entry_for(f: u64, flags: u64)
    requires
        f < 0x100_0000_0000,
        is_flag_set(flags),
    ensures
        entry_frame(entry_for(f, flags)) == f,
        entry_present(entry_for(f, flags)) == (flags & PRESENT != 0),
        entry_huge(entry_for(f, flags)) == (flags & HUGE_PAGE != 0),
{
    assert((((f << 12u64) | flags) & 0x000F_FFFF_FFFF_F000u64) >> 12u64 == f) by (bit_vector)
        requires
            f < 0x100_0000_0000u64,
            flags & 0x000F_FFFF_FFFF_F000u64 == 0,
    ;
    assert(((f << 12u64) | flags) & 1u64 == flags & 1u64) by (bit_vector);
    assert(((f << 12u64) | flags) & 128u64 == flags & 128u64) by (bit_vector);
}

} // verus!
