//! The CRC-32C checksum, computed by the `crc32c` crate.
use vstd::prelude::*;

verus! {

/// The CRC-32C (Castagnoli) check value of `data`, as `crc32c::crc32c`
/// returns it. It depends on the bytes of `data` alone.
pub uninterp spec fn crc32c_of(data: Seq<u8>) -> u32;

/// Calls `crc32c::crc32c`, which computes the CRC-32C check value of its
/// argument (in hardware where the CPU has it, else by table) and never
/// panics. The contract claims only that the result is `crc32c_of` of the
/// bytes passed.
#[verifier::external_body]
pub(crate) fn crc32c_checksum(data: &[u8]) -> (crc: u32)
    ensures
        crc == crc32c_of(data@),
{
    crc32c::crc32c(data)
}

} // verus!
