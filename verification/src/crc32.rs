//! Trusted bridge to the CRC-32 (ISO-HDLC) checksum of the `crc` crate, the
//! integrity check of the chunk wire format.

use vstd::prelude::*;

verus! {

/// The CRC-32 (ISO-HDLC) checksum of a byte sequence. The checksum is a pure
/// function of its input, so it carries a name rather than a definition; the
/// contracts of the chunk codec speak of serialized and stored checksums
/// through this name alone.
pub uninterp spec fn crc32_of(bytes: Seq<u8>) -> u32;

/// Relies on crc::Crc::<u32>::checksum with the CRC_32_ISO_HDLC algorithm of
/// the crc catalog: a table-driven computation whose result depends on the
/// input bytes alone.
#[verifier::external_body]
pub(crate) fn crc32_iso_hdlc(bytes: &[u8]) -> (r: u32)
    ensures
        r == crc32_of(bytes@),
{
    crc::Crc::<u32>::new(&crc::CRC_32_ISO_HDLC).checksum(bytes)
}

} // verus!
