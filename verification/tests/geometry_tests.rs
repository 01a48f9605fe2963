use sidx::{
    find_segment_for_time, get_range_request, parse_dash_sidx, sidx_to_seek_segments, DashSegment,
    SidxBox, SidxReference,
};

fn media_ref(referenced_size: u32, subsegment_duration: u32) -> SidxReference {
    SidxReference {
        reference_type: 0,
        referenced_size,
        subsegment_duration,
        starts_with_sap: true,
        sap_type: 1,
        sap_delta_time: 0,
    }
}

#[test]
fn concrete_scenario_one_reference() {
    // version=0, timescale=1000, earliest_presentation_time=0, first_offset=0,
    // box at offset 100 with size 50, one 2000-byte 2000-unit reference.
    let b = SidxBox {
        version: 0,
        flags: 0,
        reference_id: 1,
        timescale: 1000,
        earliest_presentation_time: 0,
        first_offset: 0,
        references: vec![media_ref(2000, 2000)],
    };
    let dash = parse_dash_sidx(&b, 100, 50);
    assert_eq!(dash.len(), 1);
    assert_eq!(dash[0].start_time, 0); // 0.0 s at timescale 1000
    assert_eq!(dash[0].duration, 2000); // 2.0 s at timescale 1000
    assert_eq!(dash[0].byte_range_start, 150);
    assert_eq!(dash[0].byte_range_end, 2149);
    assert!(dash[0].contains_sap);
    assert_eq!(dash[0].sap_type, 1);

    let seek = sidx_to_seek_segments(&b, 100, 50);
    assert_eq!(seek.len(), 1);
    assert_eq!(seek[0].start_time, 0);
    assert_eq!(seek[0].duration, 2000);
    assert_eq!(seek[0].byte_offset, 150);
    assert_eq!(seek[0].byte_size, 2000);
}

#[test]
fn segments_are_contiguous_in_time_and_bytes() {
    let b = SidxBox {
        version: 1,
        flags: 0,
        reference_id: 9,
        timescale: 90000,
        earliest_presentation_time: 1000,
        first_offset: 32,
        references: vec![media_ref(100, 90000), media_ref(250, 45000), media_ref(7, 1)],
    };
    let dash = parse_dash_sidx(&b, 4096, 56);
    assert_eq!(dash.len(), 3);
    for i in 0..dash.len() - 1 {
        assert_eq!(dash[i + 1].start_time, dash[i].start_time + dash[i].duration as u64);
        assert_eq!(dash[i + 1].byte_range_start, dash[i].byte_range_end + 1);
    }
    let seek = sidx_to_seek_segments(&b, 4096, 56);
    assert_eq!(seek.len(), 3);
    for i in 0..seek.len() - 1 {
        assert_eq!(seek[i + 1].start_time, seek[i].start_time + seek[i].duration as u64);
        assert_eq!(seek[i + 1].byte_offset, seek[i].byte_offset + seek[i].byte_size as u64);
    }
    assert_eq!(dash[0].byte_range_start, 4096 + 56 + 32);
    assert_eq!(dash[0].start_time, 1000);
}

#[test]
fn empty_references_derive_empty_sequences() {
    let b = SidxBox {
        version: 0,
        flags: 0,
        reference_id: 1,
        timescale: 1000,
        earliest_presentation_time: 0,
        first_offset: 0,
        references: Vec::new(),
    };
    assert!(parse_dash_sidx(&b, 100, 50).is_empty());
    assert!(sidx_to_seek_segments(&b, 100, 50).is_empty());
}

#[test]
fn index_references_are_emitted_as_ordinary_segments() {
    // A reference into another index box is an opaque leaf here.
    let b = SidxBox {
        version: 0,
        flags: 0,
        reference_id: 1,
        timescale: 1000,
        earliest_presentation_time: 0,
        first_offset: 0,
        references: vec![
            SidxReference {
                reference_type: 1,
                referenced_size: 500,
                subsegment_duration: 1000,
                starts_with_sap: false,
                sap_type: 0,
                sap_delta_time: 0,
            },
            media_ref(100, 1000),
        ],
    };
    let dash = parse_dash_sidx(&b, 0, 32);
    assert_eq!(dash.len(), 2);
    assert_eq!(dash[0].byte_range_start, 32);
    assert_eq!(dash[0].byte_range_end, 531);
    assert_eq!(dash[1].byte_range_start, 532);
}

#[test]
fn lookup_hits_second_segment_at_its_start_and_misses_past_the_end() {
    // Two consecutive segments covering [0.0, 2.0) and [2.0, 4.0) seconds at
    // timescale 1000.
    let b = SidxBox {
        version: 0,
        flags: 0,
        reference_id: 1,
        timescale: 1000,
        earliest_presentation_time: 0,
        first_offset: 0,
        references: vec![media_ref(100, 2000), media_ref(200, 2000)],
    };
    let dash = parse_dash_sidx(&b, 100, 50);
    assert_eq!(dash.len(), 2);

    let hit = find_segment_for_time(&dash, 2000).expect("2.0 s lies in the second segment");
    assert_eq!(hit, dash[1]);

    assert_eq!(find_segment_for_time(&dash, 0), Some(dash[0]));
    assert_eq!(find_segment_for_time(&dash, 1999), Some(dash[0]));
    assert_eq!(find_segment_for_time(&dash, 3999), Some(dash[1]));
    assert_eq!(find_segment_for_time(&dash, 4000), None);
    assert_eq!(find_segment_for_time(&dash, u64::MAX), None);
}

#[test]
fn lookup_on_empty_sequence_finds_nothing() {
    assert_eq!(find_segment_for_time(&[], 0), None);
}

#[test]
fn range_request_names_the_inclusive_byte_range() {
    let seg = DashSegment {
        start_time: 0,
        duration: 2000,
        byte_range_start: 150,
        byte_range_end: 2149,
        contains_sap: true,
        sap_type: 1,
    };
    assert_eq!(
        get_range_request("http://example.com/video.mp4", &seg),
        "http://example.com/video.mp4; Range: bytes=150-2149"
    );
}
