use vstd::prelude::*;
use crate::multiboot2::{le32, read_u32};

verus! {

/// Bytes of the root system description pointer of ACPI 1.0.
pub const RSDP_BYTES: usize = 20;

/// Distance between two places where the pointer may sit.
pub const RSDP_ALIGN: usize = 16;

/// The signature that opens the pointer: "RSD PTR ".
pub open spec fn rsdp_signature() -> Seq<u8> {
    seq![0x52u8, 0x53, 0x44, 0x20, 0x50, 0x54, 0x52, 0x20]
}

/// Sum of the bytes `b[from..to]`.
pub open spec fn byte_sum(b: Seq<u8>, from: int, to: int) -> int
    decreases to - from,
{
    if to <= from {
        0
    } else {
        byte_sum(b, from, to - 1) + b[to - 1]
    }
}

/// `b` holds a valid pointer at `o`: the signature, and bytes that sum to a
/// multiple of 256.
pub open spec fn rsdp_valid_at(b: Seq<u8>, o: int) -> bool {
    &&& 0 <= o
    &&& o + 20 <= b.len()
    &&& b.subrange(o, o + 8) == rsdp_signature()
    &&& byte_sum(b, o, o + 20) % 256 == 0
}

/// The root system description pointer: where ACPI's tables start.
#[derive(Debug, Clone, Copy, PartialEq, Eq, Structural)]
pub struct Rsdp {
    pub revision: u8,
    pub rsdt_address: u32,
}

impl Rsdp {
    /// `b` holds a valid pointer at `o`.
    pub fn is_valid(b: &Vec<u8>, o: usize) -> (r: bool)
        ensures
            r == rsdp_valid_at(b@, o as int),
    {
        let n = b.len();
        if o > n || n - o < RSDP_BYTES {
            return false;
        }
        let sig: [u8; 8] = [0x52, 0x53, 0x44, 0x20, 0x50, 0x54, 0x52, 0x20];
        let mut i: usize = 0;
        while i < 8
            invariant
                n == b@.len(),
                o + 20 <= b@.len(),
                i <= 8,
                sig@ == rsdp_signature(),
                forall|j: int| 0 <= j < i ==> b@[o + j] == rsdp_signature()[j],
            decreases 8 - i,
        {
            if b[o + i] != sig[i] {
                assert(b@.subrange(o as int, o + 8)[i as int] != rsdp_signature()[i as int]);
                return false;
            }
            i += 1;
        }
        assert(b@.subrange(o as int, o + 8) =~= rsdp_signature());
        let mut sum: u32 = 0;
        let mut k: usize = 0;
        while k < RSDP_BYTES
            invariant
                n == b@.len(),
                o + 20 <= b@.len(),
                k <= 20,
                sum == byte_sum(b@, o as int, o + k),
                sum <= 255 * k,
            decreases 20 - k,
        {
            sum = sum + b[o + k] as u32;
            k += 1;
        }
        sum % 256 == 0
    }

    /// Reads the pointer at `o`.
    pub fn read(b: &Vec<u8>, o: usize) -> (r: Rsdp)
        requires
            rsdp_valid_at(b@, o as int),
        ensures
            r.revision == b@[o + 15],
            r.rsdt_address == le32(b@, o + 16),
    {
        let _n = b.len();
        Rsdp { revision: b[o + 15], rsdt_address: read_u32(b, o + 16) }
    }

    /// The first place, on the 16-byte steps of `window`, that holds a valid
    /// pointer.
    pub fn find(window: &Vec<u8>) -> (r: Option<usize>)
        ensures
            match r {
                Some(o) => o % 16 == 0 && rsdp_valid_at(window@, o as int) && forall|p: int|
                    0 <= p < o && p % 16 == 0 ==> !rsdp_valid_at(window@, p),
                None => forall|p: int|
                    0 <= p < window@.len() && p % 16 == 0 ==> !rsdp_valid_at(window@, p),
            },
    {
        let n = window.len();
        let mut o: usize = 0;
        while o < n
            invariant
                n == window@.len(),
                o % 16 == 0,
                forall|p: int| 0 <= p < o && p % 16 == 0 ==> !rsdp_valid_at(window@, p),
            decreases n - o,
        {
            if Rsdp::is_valid(window, o) {
                return Some(o);
            }
            if n - o < RSDP_ALIGN {
                assert forall|p: int| 0 <= p < window@.len() && p % 16 == 0 implies !rsdp_valid_at(
                    window@,
                    p,
                ) by {
                    if p > o {
                        assert(p >= o + 16);
                    }
                }
                return None;
            }
            o = o + RSDP_ALIGN;
        }
        None
    }
}

} // verus!
