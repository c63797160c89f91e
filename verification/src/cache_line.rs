//! Cache-line alignment for the ring's hot fields.
use vstd::prelude::*;

verus! {

/// `__m512i` is a 512-bit SIMD value whose alignment is 64 bytes, one cache line.
/// Structs of this crate carry a zero-length array of it: the array takes no
/// space and holds no value, but lifts the struct's alignment to 64 bytes.
#[verifier::external_type_specification]
#[verifier::external_body]
pub struct ExCacheLineAlign(core::arch::x86_64::__m512i);

} // verus!
