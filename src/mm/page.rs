use vstd::prelude::*;
use crate::memory::MAX_FRAME;

verus! {

/// A 4 KiB virtual page, identified by its number.
#[derive(Debug, Clone, Copy, PartialEq, Eq, Structural)]
pub struct Page {
    pub number: u64,
}

/// Index into the level-4 table of page number `n`.
pub open spec fn p4_of(n: u64) -> u64 {
    (n >> 27u64) & 0x1FF
}

/// Index into the level-3 table of page number `n`.
pub open spec fn p3_of(n: u64) -> u64 {
    (n >> 18u64) & 0x1FF
}

/// Index into the level-2 table of page number `n`.
pub open spec fn p2_of(n: u64) -> u64 {
    (n >> 9u64) & 0x1FF
}

/// Index into the level-1 table of page number `n`.
pub open spec fn p1_of(n: u64) -> u64 {
    n & 0x1FF
}

impl Page {
    /// The page that holds virtual address `virt`.
    pub fn new(virt: u64) -> (r: Page)
        ensures
            r.number == virt / 4096,
            r.number <= MAX_FRAME,
    {
        Page { number: virt / 4096 }
    }

    /// First virtual address of the page.
    pub fn address(&self) -> (r: u64)
        requires
            self.number <= MAX_FRAME,
        ensures
            r == self.number * 4096,
    {
        self.number * 4096
    }

    pub fn p4_index(&self) -> (r: usize)
        ensures
            r == p4_of(self.number),
            r < 512,
    {
        let n = self.number;
        assert((n >> 27u64) & 0x1FF < 512) by (bit_vector);
        ((n >> 27) & 0x1FF) as usize
    }

    pub fn p3_index(&self) -> (r: usize)
        ensures
            r == p3_of(self.number),
            r < 512,
    {
        let n = self.number;
        assert((n >> 18u64) & 0x1FF < 512) by (bit_vector);
        ((n >> 18) & 0x1FF) as usize
    }

    pub fn p2_index(&self) -> (r: usize)
        ensures
            r == p2_of(self.number),
            r < 512,
    {
        let n = self.number;
        assert((n >> 9u64) & 0x1FF < 512) by (bit_vector);
        ((n >> 9) & 0x1FF) as usize
    }

    pub fn p1_index(&self) -> (r: usize)
        ensures
            r == p1_of(self.number),
            r < 512,
    {
        let n = self.number;
        assert(n & 0x1FF < 512) by (bit_vector);
        (n & 0x1FF) as usize
    }
}

} // verus!
