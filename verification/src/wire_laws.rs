//! Laws of the frame decoder, stated over the frame layout itself: the byte
//! images of the fields, and the checks written out on the raw bits.
use vstd::prelude::*;
use crate::wire::{
    f32_bits_are_finite, f32_bits_in_unit_interval, is_decoding, le_u16, le_u32, le_u64,
    metric_bits, VersionedTelemetryFrame,
};

verus! {

/// The two bytes of `v`, least significant first.
pub open spec fn u16_le_bytes(v: u16) -> Seq<u8> {
    seq![(v % 0x100) as u8, (v / 0x100) as u8]
}

/// The four bytes of `v`, least significant first.
pub open spec fn u32_le_bytes(v: u32) -> Seq<u8> {
    seq![
        (v % 0x100) as u8,
        ((v / 0x100) % 0x100) as u8,
        ((v / 0x1_0000) % 0x100) as u8,
        (v / 0x100_0000) as u8,
    ]
}

/// The eight bytes of `v`, least significant first.
pub open spec fn u64_le_bytes(v: u64) -> Seq<u8> {
    seq![
        (v % 0x100) as u8,
        ((v / 0x100) % 0x100) as u8,
        ((v / 0x1_0000) % 0x100) as u8,
        ((v / 0x100_0000) % 0x100) as u8,
        ((v / 0x1_0000_0000) % 0x100) as u8,
        ((v / 0x100_0000_0000) % 0x100) as u8,
        ((v / 0x1_0000_0000_0000) % 0x100) as u8,
        (v / 0x100_0000_0000_0000) as u8,
    ]
}

/// The 8-bit exponent field of a single-precision bit pattern (bits 23..31).
pub open spec fn f32_exponent_field(bits: u32) -> u32 {
    (bits / 0x80_0000) % 0x100
}

proof fn lemma_u16_bytes(b0: u8, b1: u8, v: u16)
    requires
        v == b0 + 0x100 * b1,
    ensures
        (v % 0x100) as u8 == b0,
        (v / 0x100) as u8 == b1,
{
}

proof fn lemma_u32_bytes(b0: u8, b1: u8, b2: u8, b3: u8, v: u32)
    requires
        v == b0 + 0x100 * b1 + 0x1_0000 * b2 + 0x100_0000 * b3,
    ensures
        (v % 0x100) as u8 == b0,
        ((v / 0x100) % 0x100) as u8 == b1,
        ((v / 0x1_0000) % 0x100) as u8 == b2,
        (v / 0x100_0000) as u8 == b3,
{
}

proof fn lemma_u32_from_bytes(v: u32)
    ensures
        v == v % 0x100 + 0x100 * ((v / 0x100) % 0x100) + 0x1_0000 * ((v / 0x1_0000) % 0x100)
            + 0x100_0000 * (v / 0x100_0000),
{
}

proof fn lemma_u64_bytes_bv(b0: u8, b1: u8, b2: u8, b3: u8, b4: u8, b5: u8, b6: u8, b7: u8, v: u64)
    by (bit_vector)
    requires
        v == (b0 as u64) + 0x100 * (b1 as u64) + 0x1_0000 * (b2 as u64) + 0x100_0000 * (b3 as u64)
            + 0x1_0000_0000 * (b4 as u64) + 0x100_0000_0000 * (b5 as u64) + 0x1_0000_0000_0000 * (
        b6 as u64) + 0x100_0000_0000_0000 * (b7 as u64),
    ensures
        v % 0x100 == b0 as u64,
        (v / 0x100) % 0x100 == b1 as u64,
        (v / 0x1_0000) % 0x100 == b2 as u64,
        (v / 0x100_0000) % 0x100 == b3 as u64,
        (v / 0x1_0000_0000) % 0x100 == b4 as u64,
        (v / 0x100_0000_0000) % 0x100 == b5 as u64,
        (v / 0x1_0000_0000_0000) % 0x100 == b6 as u64,
        v / 0x100_0000_0000_0000 == b7 as u64,
{
}

proof fn lemma_u64_bytes(b0: u8, b1: u8, b2: u8, b3: u8, b4: u8, b5: u8, b6: u8, b7: u8, v: u64)
    requires
        v == b0 + 0x100 * b1 + 0x1_0000 * b2 + 0x100_0000 * b3 + 0x1_0000_0000 * b4 + 0x100_0000_0000
            * b5 + 0x1_0000_0000_0000 * b6 + 0x100_0000_0000_0000 * b7,
    ensures
        (v % 0x100) as u8 == b0,
        ((v / 0x100) % 0x100) as u8 == b1,
        ((v / 0x1_0000) % 0x100) as u8 == b2,
        ((v / 0x100_0000) % 0x100) as u8 == b3,
        ((v / 0x1_0000_0000) % 0x100) as u8 == b4,
        ((v / 0x100_0000_0000) % 0x100) as u8 == b5,
        ((v / 0x1_0000_0000_0000) % 0x100) as u8 == b6,
        (v / 0x100_0000_0000_0000) as u8 == b7,
{
    lemma_u64_bytes_bv(b0, b1, b2, b3, b4, b5, b6, b7, v);
}

proof fn lemma_finite_is_exponent(bits: u32)
    by (bit_vector)
    ensures
        (bits & 0x7F80_0000 != 0x7F80_0000) <==> ((bits / 0x80_0000) % 0x100 != 0xFF),
{
}

/// The bytes `at..at + 2` of `s` are the image of `le_u16(s, at)`.
proof fn lemma_le_u16_image(s: Seq<u8>, at: int)
    requires
        0 <= at,
        at + 2 <= s.len(),
    ensures
        s.subrange(at, at + 2) == u16_le_bytes(le_u16(s, at)),
{
    lemma_u16_bytes(s[at], s[at + 1], le_u16(s, at));
    assert(s.subrange(at, at + 2) =~= u16_le_bytes(le_u16(s, at)));
}

/// The bytes `at..at + 4` of `s` are the image of `le_u32(s, at)`.
proof fn lemma_le_u32_image(s: Seq<u8>, at: int)
    requires
        0 <= at,
        at + 4 <= s.len(),
    ensures
        s.subrange(at, at + 4) == u32_le_bytes(le_u32(s, at)),
{
    lemma_u32_bytes(s[at], s[at + 1], s[at + 2], s[at + 3], le_u32(s, at));
    assert(s.subrange(at, at + 4) =~= u32_le_bytes(le_u32(s, at)));
}

/// The bytes `at..at + 8` of `s` are the image of `le_u64(s, at)`.
proof fn lemma_le_u64_image(s: Seq<u8>, at: int)
    requires
        0 <= at,
        at + 8 <= s.len(),
    ensures
        s.subrange(at, at + 8) == u64_le_bytes(le_u64(s, at)),
{
    let v = le_u64(s, at);
    assert(v == s[at] + 0x100 * s[at + 1] + 0x1_0000 * s[at + 2] + 0x100_0000 * s[at + 3]
        + 0x1_0000_0000 * s[at + 4] + 0x100_0000_0000 * s[at + 5] + 0x1_0000_0000_0000 * s[at + 6]
        + 0x100_0000_0000_0000 * s[at + 7]);
    lemma_u64_bytes(
        s[at],
        s[at + 1],
        s[at + 2],
        s[at + 3],
        s[at + 4],
        s[at + 5],
        s[at + 6],
        s[at + 7],
        v,
    );
    assert(s.subrange(at, at + 8) =~= u64_le_bytes(v));
}

/// When the bytes `at..at + 4` of `s` are the image of `v`, they read back as `v`.
proof fn lemma_image_reads_back(s: Seq<u8>, at: int, v: u32)
    requires
        0 <= at,
        at + 4 <= s.len(),
        s.subrange(at, at + 4) == u32_le_bytes(v),
    ensures
        le_u32(s, at) == v,
{
    assert(s[at] == s.subrange(at, at + 4)[0]);
    assert(s[at + 1] == s.subrange(at, at + 4)[1]);
    assert(s[at + 2] == s.subrange(at, at + 4)[2]);
    assert(s[at + 3] == s.subrange(at, at + 4)[3]);
    lemma_u32_from_bytes(v);
}

/// The fields read from 64 bytes re-encode to those bytes, piece by piece.
proof fn lemma_layout_of_read(f: VersionedTelemetryFrame, s: Seq<u8>)
    requires
        s.len() == 64,
        f.is_read_from(s),
    ensures
        s.subrange(0, 8) == u64_le_bytes(f.sequence_id),
        s.subrange(8, 16) == u64_le_bytes(f.timestamp_ns),
        s.subrange(16, 24) == u64_le_bytes(f.device_id_hash),
        forall|i: int|
            0 <= i < 6 ==> s.subrange(24 + 4 * i, 28 + 4 * i) == u32_le_bytes(
                #[trigger] f.signal_metric_bits@[i],
            ),
        s.subrange(48, 52) == u32_le_bytes(f.anomaly_score_bits),
        s.subrange(52, 56) == u32_le_bytes(f.nonce),
        s.subrange(56, 60) == u32_le_bytes(f.checksum),
        s.subrange(60, 62) == u16_le_bytes(f.magic_header),
        s[62] == f.version,
        s[63] == f.flags,
{
    assert(f.sequence_id == le_u64(s, 0));
    assert(f.timestamp_ns == le_u64(s, 8));
    assert(f.device_id_hash == le_u64(s, 16));
    lemma_le_u64_image(s, 0);
    lemma_le_u64_image(s, 8);
    lemma_le_u64_image(s, 16);
    assert forall|i: int| 0 <= i < 6 implies s.subrange(24 + 4 * i, 28 + 4 * i) == u32_le_bytes(
        #[trigger] f.signal_metric_bits@[i],
    ) by {
        assert(f.signal_metric_bits@[i] == metric_bits(s, i));
        lemma_le_u32_image(s, 24 + 4 * i);
    }
    lemma_le_u32_image(s, 48);
    lemma_le_u32_image(s, 52);
    lemma_le_u32_image(s, 56);
    lemma_le_u16_image(s, 60);
}

/// Every field of a decoded frame is the little-endian value of the bytes at
/// its place in the layout: re-encoding the fields gives back the 64 input
/// bytes, piece by piece.
pub proof fn law_decoded_fields_follow_the_layout(
    r: Result<VersionedTelemetryFrame, &'static str>,
    s: Seq<u8>,
    computed: u32,
)
    requires
        is_decoding(r, s, computed),
    ensures
        r matches Ok(f) ==> {
            &&& s.len() == 64
            &&& s.subrange(0, 8) == u64_le_bytes(f.sequence_id)
            &&& s.subrange(8, 16) == u64_le_bytes(f.timestamp_ns)
            &&& s.subrange(16, 24) == u64_le_bytes(f.device_id_hash)
            &&& forall|i: int|
                0 <= i < 6 ==> s.subrange(24 + 4 * i, 28 + 4 * i) == u32_le_bytes(
                    #[trigger] f.signal_metric_bits@[i],
                )
            &&& s.subrange(48, 52) == u32_le_bytes(f.anomaly_score_bits)
            &&& s.subrange(52, 56) == u32_le_bytes(f.nonce)
            &&& s.subrange(56, 60) == u32_le_bytes(f.checksum)
            &&& s.subrange(60, 62) == u16_le_bytes(f.magic_header)
            &&& s[62] == f.version
            &&& s[63] == f.flags
        },
{
    if let Ok(f) = r {
        assert(s.len() == 64 && f.is_read_from(s));
        lemma_layout_of_read(f, s);
    }
}

/// Every 64-byte frame that passes every check decodes: magic `0x4153`,
/// version 1, bytes 56..60 holding the computed checksum, six metrics whose
/// exponent fields are not all ones (finite values, zeros and subnormals
/// included), and an anomaly score that is finite and lies in `0.0..=1.0`.
pub proof fn law_frames_that_pass_every_check_decode(
    r: Result<VersionedTelemetryFrame, &'static str>,
    s: Seq<u8>,
    computed: u32,
    metrics: Seq<u32>,
    score: u32,
)
    requires
        is_decoding(r, s, computed),
        s.len() == 64,
        s[60] == 0x53,
        s[61] == 0x41,
        s[62] == 0x01,
        s.subrange(56, 60) == u32_le_bytes(computed),
        metrics.len() == 6,
        forall|i: int|
            0 <= i < 6 ==> s.subrange(24 + 4 * i, 28 + 4 * i) == u32_le_bytes(#[trigger] metrics[i]),
        forall|i: int| 0 <= i < 6 ==> f32_exponent_field(#[trigger] metrics[i]) != 0xFF,
        s.subrange(48, 52) == u32_le_bytes(score),
        f32_exponent_field(score) != 0xFF,
        score <= 0x3F80_0000 || score == 0x8000_0000,
    ensures
        r is Ok,
{
    lemma_image_reads_back(s, 56, computed);
    lemma_image_reads_back(s, 48, score);
    lemma_finite_is_exponent(score);
    assert(f32_bits_are_finite(score));
    assert(f32_bits_in_unit_interval(score));
    assert forall|i: int| 0 <= i < 6 implies f32_bits_are_finite(#[trigger] metric_bits(s, i)) by {
        assert(s.subrange(24 + 4 * i, 28 + 4 * i) == u32_le_bytes(metrics[i]));
        lemma_image_reads_back(s, 24 + 4 * i, metrics[i]);
        lemma_finite_is_exponent(metrics[i]);
    }
}

} // verus!
