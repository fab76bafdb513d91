//! The CRC-32 checksum of the format, computed by the `crc` crate.

use vstd::prelude::*;

verus! {

/// The CRC-32/ISO-HDLC checksum of a byte sequence (the variant of zlib and
/// PNG), as the `crc` crate computes it.
pub uninterp spec fn crc32(bytes: Seq<u8>) -> u32;

/// Calls `crc::Crc::<u32>::checksum` on the bytes, with the tables that
/// `crc::Crc::<u32>::new` builds for `crc::CRC_32_ISO_HDLC`. Trusted: the
/// result is the checksum of exactly these bytes, a function of them alone.
#[verifier::external_body]
pub(crate) fn checksum(bytes: &[u8]) -> (res: u32)
    ensures
        res == crc32(bytes@),
{
    crc::Crc::<u32>::new(&crc::CRC_32_ISO_HDLC).checksum(bytes)
}

} // verus!
