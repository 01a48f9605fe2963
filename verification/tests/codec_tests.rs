use sidx::model::SIDX_BOX_TYPE;
use sidx::{SidxBox, SidxError, SidxReference};

fn make_ref(
    reference_type: u8,
    referenced_size: u32,
    subsegment_duration: u32,
    starts_with_sap: bool,
    sap_type: u8,
    sap_delta_time: u32,
) -> SidxReference {
    SidxReference {
        reference_type,
        referenced_size,
        subsegment_duration,
        starts_with_sap,
        sap_type,
        sap_delta_time,
    }
}

fn make_box(version: u8, references: Vec<SidxReference>) -> SidxBox {
    SidxBox {
        version,
        flags: 0,
        reference_id: 1,
        timescale: 1000,
        earliest_presentation_time: 100,
        first_offset: 0,
        references,
    }
}

#[test]
fn box_type_is_sidx_fourcc() {
    let b = make_box(0, Vec::new());
    assert_eq!(b.box_type(), SIDX_BOX_TYPE);
    assert_eq!(b.box_type(), 0x7369_6478);
}

#[test]
fn box_size_matches_formula_both_versions() {
    let b0 = make_box(0, Vec::new());
    assert_eq!(b0.box_size(), 32);
    let b1 = make_box(1, Vec::new());
    assert_eq!(b1.box_size(), 40);
    let b0_one = make_box(0, vec![make_ref(0, 10, 10, false, 0, 0)]);
    assert_eq!(b0_one.box_size(), 44);
}

#[test]
fn box_size_equals_bytes_written_zero_one_many() {
    for version in [0u8, 1u8] {
        for count in [0usize, 1, 1000] {
            let mut refs = Vec::new();
            for i in 0..count {
                refs.push(make_ref(0, (i as u32) + 1, 1000, i % 2 == 0, 1, 0));
            }
            let b = make_box(version, refs);
            let bytes = b.write_box().expect("encodable box must encode");
            assert_eq!(b.box_size() as usize, bytes.len());
        }
    }
}

#[test]
fn round_trip_value_version_0() {
    let b = make_box(0, vec![make_ref(0, 2000, 2000, true, 1, 0), make_ref(1, 77, 5, false, 0, 3)]);
    let bytes = b.write_box().expect("encodable box must encode");
    let (decoded, consumed) = SidxBox::read_box(&bytes[8..]).expect("payload must decode");
    assert_eq!(decoded, b);
    assert_eq!(consumed, bytes.len() - 8);
}

#[test]
fn round_trip_value_version_1() {
    let b = SidxBox {
        version: 1,
        flags: 0x00AB_CDEF,
        reference_id: 0xDEAD_BEEF,
        timescale: 90000,
        earliest_presentation_time: 0x0123_4567_89AB_CDEF,
        first_offset: 0xFEDC_BA98_7654_3210,
        references: vec![make_ref(0, 4096, 180000, true, 2, 12345)],
    };
    let bytes = b.write_box().expect("encodable box must encode");
    let (decoded, consumed) = SidxBox::read_box(&bytes[8..]).expect("payload must decode");
    assert_eq!(decoded, b);
    assert_eq!(consumed, bytes.len() - 8);
}

#[test]
fn round_trip_bytes_reproduced_exactly() {
    let payload: Vec<u8> = vec![
        0, 0, 0, 0, // version 0, flags 0
        0, 0, 0, 7, // reference_id
        0, 0, 3, 0xE8, // timescale 1000
        0, 0, 0, 5, // earliest_presentation_time
        0, 0, 0, 9, // first_offset
        0, 0, // reserved
        0, 1, // reference_count
        0x80, 0, 0, 10, // reference_type 1, referenced_size 10
        0, 0, 0, 100, // subsegment_duration
        0x90, 0, 0, 3, // SAP flag set, sap_type 1, sap_delta_time 3
    ];
    let (decoded, consumed) = SidxBox::read_box(&payload).expect("payload must decode");
    assert_eq!(consumed, payload.len());
    assert_eq!(decoded.version, 0);
    assert_eq!(decoded.flags, 0);
    assert_eq!(decoded.reference_id, 7);
    assert_eq!(decoded.timescale, 1000);
    assert_eq!(decoded.earliest_presentation_time, 5);
    assert_eq!(decoded.first_offset, 9);
    assert_eq!(decoded.references.len(), 1);
    assert_eq!(decoded.references[0].reference_type, 1);
    assert_eq!(decoded.references[0].referenced_size, 10);
    assert_eq!(decoded.references[0].subsegment_duration, 100);
    assert!(decoded.references[0].starts_with_sap);
    assert_eq!(decoded.references[0].sap_type, 1);
    assert_eq!(decoded.references[0].sap_delta_time, 3);
    let reencoded = decoded.write_box().expect("decoded box must re-encode");
    assert_eq!(&reencoded[8..], &payload[..]);
    // The header carries the derived size and the type tag.
    assert_eq!(&reencoded[..8], &[0, 0, 0, 44, 0x73, 0x69, 0x64, 0x78]);
}

#[test]
fn decode_tolerates_trailing_bytes() {
    let b = make_box(0, vec![make_ref(0, 1, 1, false, 0, 0)]);
    let mut bytes = b.write_box().expect("encodable box must encode");
    let payload_len = bytes.len() - 8;
    bytes.extend_from_slice(&[0xAA, 0xBB, 0xCC]);
    let (decoded, consumed) = SidxBox::read_box(&bytes[8..]).expect("payload must decode");
    assert_eq!(consumed, payload_len);
    assert_eq!(decoded, b);
}

#[test]
fn bit_packing_maximum_values_round_trip() {
    let r = make_ref(1, 0x7FFF_FFFF, u32::MAX, true, 7, 0x0FFF_FFFF);
    let b = make_box(0, vec![r.clone(), make_ref(0, 0, 0, false, 0, 0)]);
    let bytes = b.write_box().expect("encodable box must encode");
    let (decoded, _) = SidxBox::read_box(&bytes[8..]).expect("payload must decode");
    assert_eq!(decoded.references[0], r);
    // No bit bleeds across the packed boundaries.
    assert_eq!(decoded.references[1], make_ref(0, 0, 0, false, 0, 0));
    assert_eq!(decoded, b);
}

#[test]
fn empty_references_round_trip() {
    let b = make_box(0, Vec::new());
    let bytes = b.write_box().expect("encodable box must encode");
    assert_eq!(bytes.len(), 32);
    let (decoded, consumed) = SidxBox::read_box(&bytes[8..]).expect("payload must decode");
    assert_eq!(decoded, b);
    assert_eq!(consumed, 24);
    assert!(decoded.references.is_empty());
}

#[test]
fn encode_fails_with_field_overflow_for_65536_references() {
    let mut refs = Vec::new();
    for _ in 0..65536 {
        refs.push(SidxReference::default());
    }
    let b = make_box(0, refs);
    assert_eq!(b.write_box(), Err(SidxError::FieldOverflow));
}

#[test]
fn encode_accepts_exactly_65535_references() {
    let mut refs = Vec::new();
    for _ in 0..65535 {
        refs.push(SidxReference::default());
    }
    let b = make_box(0, refs);
    let bytes = b.write_box().expect("65535 references still fit the count field");
    assert_eq!(bytes.len() as u64, b.box_size());
}

#[test]
fn encode_rejects_oversized_fields() {
    let oversize = make_box(0, vec![make_ref(0, 0x8000_0000, 0, false, 0, 0)]);
    assert_eq!(oversize.write_box(), Err(SidxError::FieldOverflow));

    let sap_type_too_wide = make_box(0, vec![make_ref(0, 1, 1, true, 8, 0)]);
    assert_eq!(sap_type_too_wide.write_box(), Err(SidxError::FieldOverflow));

    let delta_too_wide = make_box(0, vec![make_ref(0, 1, 1, true, 1, 0x1000_0000)]);
    assert_eq!(delta_too_wide.write_box(), Err(SidxError::FieldOverflow));

    let reference_type_too_wide = make_box(0, vec![make_ref(2, 1, 1, false, 0, 0)]);
    assert_eq!(reference_type_too_wide.write_box(), Err(SidxError::FieldOverflow));

    let flags_too_wide = SidxBox { flags: 0x0100_0000, ..make_box(0, Vec::new()) };
    assert_eq!(flags_too_wide.write_box(), Err(SidxError::FieldOverflow));

    let time_too_wide_for_version_0 = SidxBox {
        earliest_presentation_time: 0x1_0000_0000,
        ..make_box(0, Vec::new())
    };
    assert_eq!(time_too_wide_for_version_0.write_box(), Err(SidxError::FieldOverflow));
}

#[test]
fn decode_fails_with_malformed_input_on_truncation() {
    let b = make_box(0, vec![make_ref(0, 1, 1, false, 0, 0)]);
    let bytes = b.write_box().expect("encodable box must encode");
    let payload = &bytes[8..];
    // Every strict prefix of the payload is rejected.
    for cut in 0..payload.len() {
        assert_eq!(
            SidxBox::read_box(&payload[..cut]),
            Err(SidxError::MalformedInput),
            "prefix of {} bytes must be malformed",
            cut
        );
    }
}

#[test]
fn decode_fails_with_malformed_input_on_truncation_version_1() {
    let b = SidxBox { version: 1, ..make_box(1, vec![make_ref(0, 1, 1, false, 0, 0)]) };
    let bytes = b.write_box().expect("encodable box must encode");
    let payload = &bytes[8..];
    assert_eq!(payload.len(), 44);
    for cut in 0..payload.len() {
        assert_eq!(
            SidxBox::read_box(&payload[..cut]),
            Err(SidxError::MalformedInput),
            "prefix of {} bytes must be malformed",
            cut
        );
    }
}

#[test]
fn decode_fails_with_invalid_timescale_on_minimal_input() {
    // Exactly the 12 bytes holding version/flags, reference_id and a zero
    // timescale: the timescale error wins over the missing remainder.
    let payload = [0u8; 12];
    assert_eq!(SidxBox::read_box(&payload), Err(SidxError::InvalidTimescale));
}

#[test]
fn decode_fails_with_invalid_timescale_on_zero() {
    let b = SidxBox { timescale: 0, ..make_box(0, Vec::new()) };
    let bytes = b.write_box().expect("a zero timescale still encodes");
    assert_eq!(SidxBox::read_box(&bytes[8..]), Err(SidxError::InvalidTimescale));
}

#[test]
fn decode_rewrites_nonzero_reserved_pair_as_zero() {
    let b = make_box(0, Vec::new());
    let mut bytes = b.write_box().expect("encodable box must encode");
    // The reserved pair sits right before the 2-byte count at the payload end.
    let reserved_at = bytes.len() - 4;
    bytes[reserved_at] = 0xFF;
    bytes[reserved_at + 1] = 0xFF;
    let (decoded, _) = SidxBox::read_box(&bytes[8..]).expect("nonzero reserved is tolerated");
    assert_eq!(decoded, b);
    let reencoded = decoded.write_box().expect("decoded box must re-encode");
    assert_eq!(reencoded[reserved_at], 0);
    assert_eq!(reencoded[reserved_at + 1], 0);
}

#[test]
fn summary_lists_identifying_fields() {
    let b = SidxBox {
        version: 0,
        flags: 0,
        reference_id: 42,
        timescale: 1000,
        earliest_presentation_time: 7,
        first_offset: 12,
        references: vec![make_ref(0, 1, 1, false, 0, 0), make_ref(0, 2, 2, false, 0, 0)],
    };
    assert_eq!(
        b.summary(),
        "reference_id=42 timescale=1000 earliest_presentation_time=7 first_offset=12 references=2"
    );
}
