//! Checksum of durable images and peer frames.

use vstd::prelude::*;

verus! {

/// Remainder after `n` more bits: each takes the lowest bit away, and with a set bit folds the
/// reversed IEEE 802.3 polynomial in.
pub open spec fn crc32_shifted(remainder: u32, n: nat) -> u32
    decreases n,
{
    if n == 0 {
        remainder
    } else {
        let half = remainder >> 1;
        crc32_shifted(if remainder & 1 == 1 { half ^ 0xEDB8_8320 } else { half }, (n - 1) as nat)
    }
}

/// Remainder of a byte sequence, which starts with all bits set.
pub open spec fn crc32_remainder(bytes: Seq<u8>) -> u32
    decreases bytes.len(),
{
    if bytes.len() == 0 {
        0xFFFF_FFFF
    } else {
        crc32_shifted(crc32_remainder(bytes.drop_last()) ^ (bytes.last() as u32), 8)
    }
}

/// CRC-32 of a byte sequence: the complement of its remainder.
#[verifier::opaque]
pub open spec fn crc32_of(bytes: Seq<u8>) -> u32 {
    !crc32_remainder(bytes)
}

/// Computes the CRC-32 of `bytes` with `rafter_crc32::crc32`. The contract claims that the result
/// is the IEEE 802.3 checksum: the bytes in order, each from its lowest bit, over the reversed
/// polynomial, from a remainder of all ones, complemented at the end.
#[verifier::external_body]
pub(crate) fn crc32(bytes: &[u8]) -> (r: u32)
    ensures
        r == crc32_of(bytes@),
{
    rafter_crc32::crc32(bytes)
}

} // verus!
