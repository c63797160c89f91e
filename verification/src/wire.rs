//! The versioned telemetry frame and its hardened decoder.
//!
//! A frame is 64 bytes, all fields little-endian:
//!
//! | bytes  | field                                        |
//! |--------|----------------------------------------------|
//! | 0..8   | sequence id                                  |
//! | 8..16  | timestamp in nanoseconds                     |
//! | 16..24 | device id hash                               |
//! | 24..48 | six signal metrics, IEEE-754 single precision |
//! | 48..52 | anomaly score, IEEE-754 single precision      |
//! | 52..56 | nonce                                        |
//! | 56..60 | CRC-32C of bytes 0..56                       |
//! | 60..62 | magic header                                 |
//! | 62     | protocol version                             |
//! | 63     | flags                                        |
//!
//! Validation runs in this order: length, magic, version, checksum, metrics,
//! anomaly score. The first check that fails names the error.
use vstd::prelude::*;
use crate::checksum::{crc32c_checksum, crc32c_of};

verus! {

pub const FRAME_SIZE: usize = 64;

pub const HEADER_SIZE: usize = 56;

pub const MAGIC: u16 = 0x4153;

pub const VERSION: u8 = 0x01;

/// A decoded frame. The metrics and the anomaly score are kept as the IEEE-754
/// bit patterns read from the wire; `f32::from_bits` gives their values.
#[derive(Debug, Clone, Copy, PartialEq, Eq)]
pub struct VersionedTelemetryFrame {
    pub sequence_id: u64,
    pub timestamp_ns: u64,
    pub device_id_hash: u64,
    pub signal_metric_bits: [u32; 6],
    pub anomaly_score_bits: u32,
    pub nonce: u32,
    pub checksum: u32,
    pub magic_header: u16,
    pub version: u8,
    pub flags: u8,
}

/// The little-endian `u16` at offset `at` of `s`.
pub open spec fn le_u16(s: Seq<u8>, at: int) -> u16 {
    (s[at] + 0x100 * s[at + 1]) as u16
}

/// The little-endian `u32` at offset `at` of `s`.
pub open spec fn le_u32(s: Seq<u8>, at: int) -> u32 {
    (s[at] + 0x100 * s[at + 1] + 0x1_0000 * s[at + 2] + 0x100_0000 * s[at + 3]) as u32
}

/// The little-endian `u64` at offset `at` of `s`.
pub open spec fn le_u64(s: Seq<u8>, at: int) -> u64 {
    (le_u32(s, at) + 0x1_0000_0000 * le_u32(s, at + 4)) as u64
}

/// The single-precision value with bit pattern `bits` is finite: its exponent
/// field is not all ones (all ones is an infinity or a NaN).
pub open spec fn f32_bits_are_finite(bits: u32) -> bool {
    bits & 0x7F80_0000 != 0x7F80_0000
}

/// The single-precision value with bit pattern `bits` lies in `0.0..=1.0`:
/// it is `+0.0` up to `1.0` (whose bits are `0x3F80_0000`), or `-0.0`.
pub open spec fn f32_bits_in_unit_interval(bits: u32) -> bool {
    bits <= 0x3F80_0000 || bits == 0x8000_0000
}

/// The bit pattern of signal metric `i` of the frame `s`.
pub open spec fn metric_bits(s: Seq<u8>, i: int) -> u32 {
    le_u32(s, 24 + 4 * i)
}

/// The error that decoding the bytes `s` yields when the CRC-32C of their
/// first 56 bytes is `computed`, or `None` when they decode.
pub open spec fn decode_error(s: Seq<u8>, computed: u32) -> Option<&'static str> {
    if s.len() != FRAME_SIZE {
        Some("INVALID_FRAME_LENGTH")
    } else if le_u16(s, 60) != MAGIC {
        Some("INVALID_MAGIC_HEADER")
    } else if s[62] != VERSION {
        Some("UNSUPPORTED_PROTOCOL_VERSION")
    } else if le_u32(s, 56) != computed {
        Some("CHECKSUM_MISMATCH")
    } else if exists|i: int| 0 <= i < 6 && !f32_bits_are_finite(#[trigger] metric_bits(s, i)) {
        Some("INVALID_METRIC_VALUE")
    } else if !f32_bits_are_finite(le_u32(s, 48)) || !f32_bits_in_unit_interval(le_u32(s, 48)) {
        Some("INVALID_ANOMALY_SCORE")
    } else {
        None
    }
}

impl VersionedTelemetryFrame {
    /// The frame holds the fields of the 64 bytes `s`.
    pub open spec fn is_read_from(self, s: Seq<u8>) -> bool {
        &&& self.sequence_id == le_u64(s, 0)
        &&& self.timestamp_ns == le_u64(s, 8)
        &&& self.device_id_hash == le_u64(s, 16)
        &&& self.signal_metric_bits@ == Seq::new(6, |i: int| metric_bits(s, i))
        &&& self.anomaly_score_bits == le_u32(s, 48)
        &&& self.nonce == le_u32(s, 52)
        &&& self.checksum == le_u32(s, 56)
        &&& self.magic_header == le_u16(s, 60)
        &&& self.version == s[62]
        &&& self.flags == s[63]
    }

    /// The frame passes every check of the decoder that does not depend on the
    /// checksum: magic, version, finite metrics, anomaly score in `0.0..=1.0`.
    pub open spec fn is_valid(self) -> bool {
        &&& self.magic_header == MAGIC
        &&& self.version == VERSION
        &&& forall|i: int| 0 <= i < 6 ==> f32_bits_are_finite(#[trigger] self.signal_metric_bits@[i])
        &&& f32_bits_are_finite(self.anomaly_score_bits)
        &&& f32_bits_in_unit_interval(self.anomaly_score_bits)
    }
}

/// What decoding `s` returns when the CRC-32C of its first 56 bytes is
/// `computed`: the first error, or the frame read from the bytes.
pub open spec fn is_decoding(r: Result<VersionedTelemetryFrame, &'static str>, s: Seq<u8>, computed: u32) -> bool {
    match decode_error(s, computed) {
        Some(e) => r == Err::<VersionedTelemetryFrame, &'static str>(e),
        None => r matches Ok(f) && f.is_read_from(s),
    }
}

/// A frame that decoding accepts is valid, and its checksum field is the
/// checksum that was computed over the bytes it came from.
pub proof fn law_decoded_frame_is_valid(
    r: Result<VersionedTelemetryFrame, &'static str>,
    s: Seq<u8>,
    computed: u32,
)
    requires
        is_decoding(r, s, computed),
    ensures
        r matches Ok(f) ==> f.checksum == computed && f.is_valid(),
{
    if let Ok(f) = r {
        assert(decode_error(s, computed) is None);
        assert forall|i: int| 0 <= i < 6 implies f32_bits_are_finite(
            #[trigger] f.signal_metric_bits@[i],
        ) by {
            assert(f.signal_metric_bits@[i] == metric_bits(s, i));
        }
    }
}

fn read_le_u16(bytes: &[u8], at: usize) -> (v: u16)
    requires
        at + 2 <= bytes@.len(),
    ensures
        v == le_u16(bytes@, at as int),
{
    bytes[at] as u16 + 0x100 * bytes[at + 1] as u16
}

fn read_le_u32(bytes: &[u8], at: usize) -> (v: u32)
    requires
        at + 4 <= bytes@.len(),
    ensures
        v == le_u32(bytes@, at as int),
{
    bytes[at] as u32 + 0x100 * bytes[at + 1] as u32 + 0x1_0000 * bytes[at + 2] as u32 + 0x100_0000
        * bytes[at + 3] as u32
}

fn read_le_u64(bytes: &[u8], at: usize) -> (v: u64)
    requires
        at + 8 <= bytes@.len(),
        at <= HEADER_SIZE,
    ensures
        v == le_u64(bytes@, at as int),
{
    read_le_u32(bytes, at) as u64 + 0x1_0000_0000 * read_le_u32(bytes, at + 4) as u64
}

/// Whether the single-precision value with bit pattern `bits` is finite.
pub fn f32_bits_is_finite(bits: u32) -> (finite: bool)
    ensures
        finite == f32_bits_are_finite(bits),
{
    bits & 0x7F80_0000 != 0x7F80_0000
}

/// Whether the single-precision value with bit pattern `bits` lies in `0.0..=1.0`.
pub fn f32_bits_is_in_unit_interval(bits: u32) -> (inside: bool)
    ensures
        inside == f32_bits_in_unit_interval(bits),
{
    bits <= 0x3F80_0000 || bits == 0x8000_0000
}

impl VersionedTelemetryFrame {
    /// Decode and validate a wire frame, given the CRC-32C `computed` of its
    /// first `HEADER_SIZE` bytes.
    pub fn decode_with_checksum(bytes: &[u8], computed: u32) -> (r: Result<Self, &'static str>)
        ensures
            is_decoding(r, bytes@, computed),
    {
        if bytes.len() != FRAME_SIZE {
            return Err("INVALID_FRAME_LENGTH");
        }
        let magic = read_le_u16(bytes, 60);
        if magic != MAGIC {
            return Err("INVALID_MAGIC_HEADER");
        }
        if bytes[62] != VERSION {
            return Err("UNSUPPORTED_PROTOCOL_VERSION");
        }
        let checksum = read_le_u32(bytes, 56);
        if computed != checksum {
            return Err("CHECKSUM_MISMATCH");
        }
        let sequence_id = read_le_u64(bytes, 0);
        let timestamp_ns = read_le_u64(bytes, 8);
        let device_id_hash = read_le_u64(bytes, 16);

        let mut signal_metric_bits = [0u32; 6];
        let mut i: usize = 0;
        while i < 6
            invariant
                i <= 6,
                bytes@.len() == FRAME_SIZE,
                le_u16(bytes@, 60) == MAGIC,
                bytes@[62] == VERSION,
                le_u32(bytes@, 56) == computed,
                forall|j: int| 0 <= j < i ==> signal_metric_bits@[j] == metric_bits(bytes@, j),
                forall|j: int| 0 <= j < i ==> f32_bits_are_finite(#[trigger] metric_bits(bytes@, j)),
            decreases 6 - i,
        {
            let bits = read_le_u32(bytes, 24 + i * 4);
            if !f32_bits_is_finite(bits) {
                assert(!f32_bits_are_finite(metric_bits(bytes@, i as int)));
                return Err("INVALID_METRIC_VALUE");
            }
            signal_metric_bits[i] = bits;
            i = i + 1;
        }

        let anomaly_score_bits = read_le_u32(bytes, 48);
        if !f32_bits_is_finite(anomaly_score_bits) || !f32_bits_is_in_unit_interval(anomaly_score_bits) {
            return Err("INVALID_ANOMALY_SCORE");
        }
        let nonce = read_le_u32(bytes, 52);
        let frame = VersionedTelemetryFrame {
            sequence_id,
            timestamp_ns,
            device_id_hash,
            signal_metric_bits,
            anomaly_score_bits,
            nonce,
            checksum,
            magic_header: magic,
            version: bytes[62],
            flags: bytes[63],
        };
        assert(frame.signal_metric_bits@ =~= Seq::new(6, |i: int| metric_bits(bytes@, i)));
        Ok(frame)
    }

    /// Decode and validate a wire frame.
    pub fn decode_from_wire(bytes: &[u8]) -> (r: Result<Self, &'static str>)
        ensures
            bytes@.len() != FRAME_SIZE ==> r == Err::<Self, &'static str>("INVALID_FRAME_LENGTH"),
            bytes@.len() == FRAME_SIZE ==> is_decoding(
                r,
                bytes@,
                crc32c_of(bytes@.subrange(0, HEADER_SIZE as int)),
            ),
            r matches Ok(f) ==> f.is_valid() && f.checksum == crc32c_of(
                bytes@.subrange(0, HEADER_SIZE as int),
            ),
    {
        if bytes.len() != FRAME_SIZE {
            return Err("INVALID_FRAME_LENGTH");
        }
        let header = vstd::slice::slice_subrange(bytes, 0, HEADER_SIZE);
        let computed = crc32c_checksum(header);
        let r = Self::decode_with_checksum(bytes, computed);
        proof {
            law_decoded_frame_is_valid(r, bytes@, computed);
        }
        r
    }
}

} // verus!
