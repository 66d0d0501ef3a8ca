//! The CRC-32 checksum that guards every chunk.

use vstd::prelude::*;

verus! {

/// The CRC-32 checksum (IEEE polynomial) of a byte sequence.
///
/// The value is computed by the `crc` crate and is not defined here: the
/// library only relies on it being a function of the bytes.
pub uninterp spec fn crc32_ieee(bytes: Seq<u8>) -> u32;

/// Calls `crc::crc32::checksum_ieee`, which runs a table-driven CRC-32 over
/// the slice, reads nothing else, and never fails. The contract claims only
/// that the sum is the function [`crc32_ieee`] of the bytes.
#[verifier::external_body]
pub(crate) fn checksum_ieee(bytes: &[u8]) -> (sum: u32)
    ensures
        sum == crc32_ieee(bytes@),
{
    crc::crc32::checksum_ieee(bytes)
}

} // verus!
