//! The checksum that protects a chunk: CRC-32, computed by `crc32fast`.

use vstd::prelude::*;

verus! {

/// The CRC-32 (IEEE) checksum of `bytes`.
pub uninterp spec fn crc32(bytes: Seq<u8>) -> u32;

/// `crc32fast::hash`: the CRC-32 (IEEE) checksum of a byte slice. Verus takes
/// on trust that the call returns the checksum of the bytes handed to it, a
/// function of those bytes alone.
#[verifier::external_body]
pub(crate) fn hash(buf: &[u8]) -> (r: u32)
    ensures
        r == crc32(buf@),
{
    crc32fast::hash(buf)
}

} // verus!
