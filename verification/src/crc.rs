//! The CRC32 checksum that the GPT structures carry, named for the contracts
//! and computed by an outside crate.

use vstd::prelude::*;

verus! {

/// The IEEE CRC-32 of a byte sequence. What the polynomial division computes
/// takes pages to state; the contracts only need that it is a function of the
/// bytes alone.
pub uninterp spec fn crc32_of(s: Seq<u8>) -> u32;

/// Relies on crc32fast::hash: the IEEE CRC-32 of the bytes, a pure function
/// of its input.
#[verifier::external_body]
pub(crate) fn crc32(data: &Vec<u8>) -> (r: u32)
    ensures
        r == crc32_of(data@),
{
    crc32fast::hash(data.as_slice())
}

} // verus!
