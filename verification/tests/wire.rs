use pelican::wire::{
    f32_bits_is_finite, f32_bits_is_in_unit_interval, VersionedTelemetryFrame, FRAME_SIZE,
    HEADER_SIZE, MAGIC, VERSION,
};

fn golden() -> Vec<u8> {
    let hex_vector = "6500000000000000\
        15cd853dfe9c9717\
        efcdab1032547698\
        cdcccc3dcdcc4cbe\
        9a99993ecdccccbe\
        0000003f9a9919bf\
        0000603fd4c3b2a1\
        7f5edcb1\
        53410101";
    hex::decode(hex_vector).expect("valid hex")
}

/// Rewrites the checksum field so that it matches the (possibly edited) payload.
fn reseal(bytes: &mut [u8]) {
    let crc = crc32c::crc32c(&bytes[..HEADER_SIZE]);
    bytes[56..60].copy_from_slice(&crc.to_le_bytes());
}

#[test]
fn test_canonical_golden_vector_decoding() {
    let hex_vector = "6500000000000000\
        15cd853dfe9c9717\
        efcdab1032547698\
        cdcccc3dcdcc4cbe\
        9a99993ecdccccbe\
        0000003f9a9919bf\
        0000603fd4c3b2a1\
        7f5edcb1\
        53410101";
    assert_eq!(hex_vector.len(), 128);
    let bytes = hex::decode(hex_vector).expect("decode hex");
    assert_eq!(bytes.len(), 64);

    let decoded = VersionedTelemetryFrame::decode_from_wire(&bytes)
        .expect("Canonical golden vector failed validation");

    assert_eq!(decoded.sequence_id, 101);
    assert_eq!(decoded.timestamp_ns, 1_700_000_000_123_456_789);
    assert_eq!(decoded.device_id_hash, 0x9876543210ABCDEF);
    assert_eq!(
        decoded.signal_metric_bits.map(f32::from_bits),
        [0.1f32, -0.2f32, 0.3f32, -0.4f32, 0.5f32, -0.6f32]
    );
    assert_eq!(f32::from_bits(decoded.anomaly_score_bits), 0.875f32);
    assert_eq!(decoded.nonce, 0xA1B2C3D4);
    assert_eq!(decoded.checksum, 0xB1DC5E7F);
    assert_eq!(decoded.magic_header, 0x4153);
    assert_eq!(decoded.version, 0x01);
    assert_eq!(decoded.flags, 0x01);
}

#[test]
fn test_golden_vector_is_exactly_64_bytes() {
    let hex_vector = "6500000000000000\
        15cd853dfe9c9717\
        efcdab1032547698\
        cdcccc3dcdcc4cbe\
        9a99993ecdccccbe\
        0000003f9a9919bf\
        0000603fd4c3b2a1\
        7f5edcb1\
        53410101";
    let bytes = hex::decode(hex_vector).expect("valid hex");
    assert_eq!(bytes.len(), 64);
    assert_eq!(&bytes[56..60], &[0x7f, 0x5e, 0xdc, 0xb1]);
    assert_eq!(&bytes[60..62], &[0x53, 0x41]);
    assert_eq!(bytes[62], 0x01);
    assert_eq!(bytes[63], 0x01);
}

#[test]
fn test_crc32c_matches_wire_checksum() {
    let hex_vector = "6500000000000000\
        15cd853dfe9c9717\
        efcdab1032547698\
        cdcccc3dcdcc4cbe\
        9a99993ecdccccbe\
        0000003f9a9919bf\
        0000603fd4c3b2a1\
        7f5edcb1\
        53410101";
    let bytes = hex::decode(hex_vector).expect("valid hex");
    let computed = crc32c::crc32c(&bytes[0..56]);
    assert_eq!(computed, 0xB1DC5E7F);
    let wire = u32::from_le_bytes(bytes[56..60].try_into().unwrap());
    assert_eq!(wire, computed);
}

#[test]
fn constants_match_the_layout() {
    assert_eq!(FRAME_SIZE, 64);
    assert_eq!(HEADER_SIZE, 56);
    assert_eq!(MAGIC, 0x4153);
    assert_eq!(VERSION, 1);
}

#[test]
fn wrong_length_is_rejected_first() {
    let bytes = golden();
    assert_eq!(
        VersionedTelemetryFrame::decode_from_wire(&bytes[..63]),
        Err("INVALID_FRAME_LENGTH")
    );
    let mut longer = bytes.clone();
    longer.push(0);
    assert_eq!(VersionedTelemetryFrame::decode_from_wire(&longer), Err("INVALID_FRAME_LENGTH"));
    assert_eq!(VersionedTelemetryFrame::decode_from_wire(&[]), Err("INVALID_FRAME_LENGTH"));
}

#[test]
fn bad_magic_is_rejected_before_the_checksum() {
    let mut bytes = golden();
    bytes[61] = 0x42;
    bytes[0] = 0xFF; // would also break the checksum
    assert_eq!(VersionedTelemetryFrame::decode_from_wire(&bytes), Err("INVALID_MAGIC_HEADER"));
}

#[test]
fn bad_version_is_rejected() {
    let mut bytes = golden();
    bytes[62] = 0x02;
    assert_eq!(
        VersionedTelemetryFrame::decode_from_wire(&bytes),
        Err("UNSUPPORTED_PROTOCOL_VERSION")
    );
}

#[test]
fn corrupted_payload_fails_the_checksum() {
    let mut bytes = golden();
    bytes[3] ^= 0x01;
    assert_eq!(VersionedTelemetryFrame::decode_from_wire(&bytes), Err("CHECKSUM_MISMATCH"));
    let mut bytes = golden();
    bytes[57] ^= 0x80;
    assert_eq!(VersionedTelemetryFrame::decode_from_wire(&bytes), Err("CHECKSUM_MISMATCH"));
}

#[test]
fn non_finite_metric_is_rejected() {
    let mut bytes = golden();
    bytes[36..40].copy_from_slice(&f32::NAN.to_bits().to_le_bytes());
    reseal(&mut bytes);
    assert_eq!(VersionedTelemetryFrame::decode_from_wire(&bytes), Err("INVALID_METRIC_VALUE"));
    let mut bytes = golden();
    bytes[24..28].copy_from_slice(&f32::NEG_INFINITY.to_bits().to_le_bytes());
    reseal(&mut bytes);
    assert_eq!(VersionedTelemetryFrame::decode_from_wire(&bytes), Err("INVALID_METRIC_VALUE"));
}

#[test]
fn anomaly_score_outside_unit_interval_is_rejected() {
    for bad in [1.0000001f32, -0.5, 2.0, f32::INFINITY, f32::NAN] {
        let mut bytes = golden();
        bytes[48..52].copy_from_slice(&bad.to_bits().to_le_bytes());
        reseal(&mut bytes);
        assert_eq!(
            VersionedTelemetryFrame::decode_from_wire(&bytes),
            Err("INVALID_ANOMALY_SCORE")
        );
    }
}

#[test]
fn anomaly_score_bounds_are_accepted() {
    for good in [0.0f32, -0.0, 1.0, f32::MIN_POSITIVE, 0.5] {
        let mut bytes = golden();
        bytes[48..52].copy_from_slice(&good.to_bits().to_le_bytes());
        reseal(&mut bytes);
        let frame = VersionedTelemetryFrame::decode_from_wire(&bytes).expect("in range");
        assert_eq!(frame.anomaly_score_bits, good.to_bits());
    }
}

#[test]
fn decode_with_checksum_uses_the_given_crc() {
    let bytes = golden();
    assert!(VersionedTelemetryFrame::decode_with_checksum(&bytes, 0xB1DC5E7F).is_ok());
    assert_eq!(
        VersionedTelemetryFrame::decode_with_checksum(&bytes, 0xB1DC5E7E),
        Err("CHECKSUM_MISMATCH")
    );
}

#[test]
fn float_bit_predicates_agree_with_f32() {
    let samples = [
        0.0f32,
        -0.0,
        1.0,
        -1.0,
        0.875,
        1.0000001,
        0.99999994,
        f32::MIN_POSITIVE,
        1e-45,
        -1e-45,
        f32::MAX,
        f32::MIN,
        f32::INFINITY,
        f32::NEG_INFINITY,
        f32::NAN,
        -f32::NAN,
    ];
    for x in samples {
        let bits = x.to_bits();
        assert_eq!(f32_bits_is_finite(bits), x.is_finite(), "{x}");
        if x.is_finite() {
            assert_eq!(f32_bits_is_in_unit_interval(bits), (0.0..=1.0).contains(&x), "{x}");
        }
    }
    let mut bits: u32 = 0;
    loop {
        let x = f32::from_bits(bits);
        assert_eq!(f32_bits_is_finite(bits), x.is_finite());
        if x.is_finite() {
            assert_eq!(f32_bits_is_in_unit_interval(bits), (0.0..=1.0).contains(&x));
        }
        match bits.checked_add(0x0001_0003) {
            Some(next) => bits = next,
            None => break,
        }
    }
}
