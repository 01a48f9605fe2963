//! Segment geometry engine: turns a decoded box, together with the box's own
//! file offset and encoded size (supplied by the container reader), into
//! ordered time/byte-addressable segment sequences.
//!
//! Times are kept in integer timescale units throughout; dividing by the
//! box's timescale to obtain seconds is left to the presentation layer.

use vstd::prelude::*;
use vstd::string::StringExecFns;

use crate::model::{SidxBox, SidxReference};
use crate::text::{push_decimal, spec_decimal};

verus! {

/// Minimal segment shape for seeking: where a referenced range starts in time
/// and in the byte stream, and how long and large it is.
#[derive(Clone, Copy, Debug, PartialEq, Eq, Structural)]
pub struct SeekSegment {
    /// Start time, in timescale units from zero.
    pub start_time: u64,
    /// Duration, in timescale units.
    pub duration: u32,
    /// Absolute byte offset of the range in the file.
    pub byte_offset: u64,
    /// Size of the range in bytes.
    pub byte_size: u32,
}

/// Richer segment shape for adaptive-streaming delivery: an explicit
/// inclusive byte range plus access-point metadata.
#[derive(Clone, Copy, Debug, PartialEq, Eq, Structural)]
pub struct DashSegment {
    /// Start time, in timescale units from zero.
    pub start_time: u64,
    /// Duration, in timescale units.
    pub duration: u32,
    /// First byte of the range (absolute file offset).
    pub byte_range_start: u64,
    /// Last byte of the range, inclusive.
    pub byte_range_end: u64,
    /// Whether the range begins with a Stream Access Point.
    pub contains_sap: bool,
    /// Kind of the access point.
    pub sap_type: u8,
}

/// Total duration of a reference sequence, in timescale units.
pub open spec fn spec_sum_durations(rs: Seq<SidxReference>) -> int
    decreases rs.len(),
{
    if rs.len() == 0 {
        0
    } else {
        spec_sum_durations(rs.drop_last()) + rs.last().subsegment_duration
    }
}

/// Total byte size of a reference sequence.
pub open spec fn spec_sum_sizes(rs: Seq<SidxReference>) -> int
    decreases rs.len(),
{
    if rs.len() == 0 {
        0
    } else {
        spec_sum_sizes(rs.drop_last()) + rs.last().referenced_size
    }
}

/// Absolute file offset of the first referenced byte: the box's end plus its
/// declared gap to the first segment.
pub open spec fn spec_base_offset(b: SidxBox, box_offset: u64, box_size: u64) -> int {
    box_offset + box_size + b.first_offset
}

/// The derivation's additions stay within 64 bits.
pub open spec fn geometry_fits(b: SidxBox, box_offset: u64, box_size: u64) -> bool {
    &&& spec_base_offset(b, box_offset, box_size) + spec_sum_sizes(b.references@) <= u64::MAX
    &&& b.earliest_presentation_time + spec_sum_durations(b.references@) <= u64::MAX
}

/// The first emitted inclusive byte range does not start before file offset
/// zero with an empty range, whose inclusive end would fall at offset -1.
pub open spec fn dash_ranges_representable(b: SidxBox, box_offset: u64, box_size: u64) -> bool {
    ||| spec_base_offset(b, box_offset, box_size) > 0
    ||| b.references@.len() == 0
    ||| b.references@[0].referenced_size > 0
}

/// Segment `i` of the minimal derivation.
pub open spec fn spec_seek_segment(b: SidxBox, box_offset: u64, box_size: u64, i: int) -> SeekSegment {
    SeekSegment {
        start_time: (b.earliest_presentation_time + spec_sum_durations(
            b.references@.take(i),
        )) as u64,
        duration: b.references@[i].subsegment_duration,
        byte_offset: (spec_base_offset(b, box_offset, box_size) + spec_sum_sizes(
            b.references@.take(i),
        )) as u64,
        byte_size: b.references@[i].referenced_size,
    }
}

/// The minimal derivation: one segment per reference, in reference order.
pub open spec fn spec_seek_segments(b: SidxBox, box_offset: u64, box_size: u64) -> Seq<
    SeekSegment,
> {
    Seq::new(b.references@.len(), |i: int| spec_seek_segment(b, box_offset, box_size, i))
}

/// Segment `i` of the adaptive-streaming derivation.
pub open spec fn spec_dash_segment(b: SidxBox, box_offset: u64, box_size: u64, i: int) -> DashSegment {
    DashSegment {
        start_time: (b.earliest_presentation_time + spec_sum_durations(
            b.references@.take(i),
        )) as u64,
        duration: b.references@[i].subsegment_duration,
        byte_range_start: (spec_base_offset(b, box_offset, box_size) + spec_sum_sizes(
            b.references@.take(i),
        )) as u64,
        byte_range_end: (spec_base_offset(b, box_offset, box_size) + spec_sum_sizes(
            b.references@.take(i),
        ) + b.references@[i].referenced_size - 1) as u64,
        contains_sap: b.references@[i].starts_with_sap,
        sap_type: b.references@[i].sap_type,
    }
}

/// The adaptive-streaming derivation: one segment per reference, in order.
pub open spec fn spec_dash_segments(b: SidxBox, box_offset: u64, box_size: u64) -> Seq<
    DashSegment,
> {
    Seq::new(b.references@.len(), |i: int| spec_dash_segment(b, box_offset, box_size, i))
}

/// Durations sum to a nonnegative total.
pub proof fn lemma_sum_durations_nonneg(rs: Seq<SidxReference>)
    ensures
        spec_sum_durations(rs) >= 0,
    decreases rs.len(),
{
    if rs.len() > 0 {
        lemma_sum_durations_nonneg(rs.drop_last());
    }
}

/// Sizes sum to a nonnegative total.
pub proof fn lemma_sum_sizes_nonneg(rs: Seq<SidxReference>)
    ensures
        spec_sum_sizes(rs) >= 0,
    decreases rs.len(),
{
    if rs.len() > 0 {
        lemma_sum_sizes_nonneg(rs.drop_last());
    }
}

/// Extending a prefix by one entry adds that entry's duration and size.
pub proof fn lemma_sum_take_succ(rs: Seq<SidxReference>, i: int)
    requires
        0 <= i < rs.len(),
    ensures
        spec_sum_durations(rs.take(i + 1)) == spec_sum_durations(rs.take(i))
            + rs[i].subsegment_duration,
        spec_sum_sizes(rs.take(i + 1)) == spec_sum_sizes(rs.take(i)) + rs[i].referenced_size,
{
    assert(rs.take(i + 1).drop_last() =~= rs.take(i));
}

/// Prefix sums grow with the prefix.
pub proof fn lemma_sum_take_monotone(rs: Seq<SidxReference>, i: int, j: int)
    requires
        0 <= i <= j <= rs.len(),
    ensures
        spec_sum_durations(rs.take(i)) <= spec_sum_durations(rs.take(j)),
        spec_sum_sizes(rs.take(i)) <= spec_sum_sizes(rs.take(j)),
    decreases j - i,
{
    if i < j {
        lemma_sum_take_monotone(rs, i, j - 1);
        lemma_sum_take_succ(rs, j - 1);
    }
}

/// A prefix sum never exceeds the whole sum.
pub proof fn lemma_sum_take_le(rs: Seq<SidxReference>, i: int)
    requires
        0 <= i <= rs.len(),
    ensures
        spec_sum_durations(rs.take(i)) <= spec_sum_durations(rs),
        spec_sum_sizes(rs.take(i)) <= spec_sum_sizes(rs),
{
    lemma_sum_take_monotone(rs, i, rs.len() as int);
    assert(rs.take(rs.len() as int) =~= rs);
}

/// Segment `i`'s inclusive byte range ends at offset 0 or later.
proof fn lemma_dash_end_representable(b: SidxBox, box_offset: u64, box_size: u64, i: int)
    requires
        dash_ranges_representable(b, box_offset, box_size),
        0 <= i < b.references@.len(),
    ensures
        spec_base_offset(b, box_offset, box_size) + spec_sum_sizes(b.references@.take(i))
            + b.references@[i].referenced_size >= 1,
{
    lemma_sum_sizes_nonneg(b.references@.take(i));
    if spec_base_offset(b, box_offset, box_size) <= 0 {
        if i == 0 {
            assert(b.references@[0].referenced_size > 0);
        } else {
            lemma_sum_take_monotone(b.references@, 1, i);
            lemma_sum_take_succ(b.references@, 0);
            assert(b.references@.take(0).len() == 0);
            assert(spec_sum_sizes(b.references@.take(0)) == 0);
        }
    }
}

/// Derives the minimal seek table: one segment per reference, each starting
/// where the previous one ended in both time and bytes, beginning at the
/// earliest presentation time and at the base offset `box_offset + box_size +
/// first_offset`.
pub fn sidx_to_seek_segments(sidx: &SidxBox, sidx_box_offset: u64, sidx_box_size: u64) -> (segments:
    Vec<SeekSegment>)
    requires
        geometry_fits(*sidx, sidx_box_offset, sidx_box_size),
    ensures
        segments@ == spec_seek_segments(*sidx, sidx_box_offset, sidx_box_size),
{
    let mut segments: Vec<SeekSegment> = Vec::new();
    proof {
        lemma_sum_sizes_nonneg(sidx.references@);
        lemma_sum_durations_nonneg(sidx.references@);
    }
    let base: u64 = sidx_box_offset + sidx_box_size + sidx.first_offset;
    let mut current_time: u64 = sidx.earliest_presentation_time;
    let mut current_offset: u64 = base;
    for i in 0..sidx.references.len()
        invariant
            geometry_fits(*sidx, sidx_box_offset, sidx_box_size),
            base == spec_base_offset(*sidx, sidx_box_offset, sidx_box_size),
            current_time == sidx.earliest_presentation_time + spec_sum_durations(
                sidx.references@.take(i as int),
            ),
            current_offset == base + spec_sum_sizes(sidx.references@.take(i as int)),
            segments@.len() == i,
            forall|j: int|
                0 <= j < i ==> segments@[j] == spec_seek_segment(
                    *sidx,
                    sidx_box_offset,
                    sidx_box_size,
                    j,
                ),
    {
        let r = sidx.references[i];
        segments.push(
            SeekSegment {
                start_time: current_time,
                duration: r.subsegment_duration,
                byte_offset: current_offset,
                byte_size: r.referenced_size,
            },
        );
        proof {
            lemma_sum_take_succ(sidx.references@, i as int);
            lemma_sum_take_le(sidx.references@, i as int + 1);
        }
        current_time = current_time + r.subsegment_duration as u64;
        current_offset = current_offset + r.referenced_size as u64;
    }
    proof {
        assert(segments@ =~= spec_seek_segments(*sidx, sidx_box_offset, sidx_box_size));
    }
    segments
}

/// Derives the adaptive-streaming table: like the seek table, but each
/// segment carries its inclusive byte range and access-point metadata.
pub fn parse_dash_sidx(sidx: &SidxBox, sidx_box_offset: u64, sidx_box_size: u64) -> (segments: Vec<
    DashSegment,
>)
    requires
        geometry_fits(*sidx, sidx_box_offset, sidx_box_size),
        dash_ranges_representable(*sidx, sidx_box_offset, sidx_box_size),
    ensures
        segments@ == spec_dash_segments(*sidx, sidx_box_offset, sidx_box_size),
{
    let mut segments: Vec<DashSegment> = Vec::new();
    proof {
        lemma_sum_sizes_nonneg(sidx.references@);
        lemma_sum_durations_nonneg(sidx.references@);
    }
    let base: u64 = sidx_box_offset + sidx_box_size + sidx.first_offset;
    let mut current_time: u64 = sidx.earliest_presentation_time;
    let mut current_offset: u64 = base;
    for i in 0..sidx.references.len()
        invariant
            geometry_fits(*sidx, sidx_box_offset, sidx_box_size),
            dash_ranges_representable(*sidx, sidx_box_offset, sidx_box_size),
            base == spec_base_offset(*sidx, sidx_box_offset, sidx_box_size),
            current_time == sidx.earliest_presentation_time + spec_sum_durations(
                sidx.references@.take(i as int),
            ),
            current_offset == base + spec_sum_sizes(sidx.references@.take(i as int)),
            segments@.len() == i,
            forall|j: int|
                0 <= j < i ==> segments@[j] == spec_dash_segment(
                    *sidx,
                    sidx_box_offset,
                    sidx_box_size,
                    j,
                ),
    {
        let r = sidx.references[i];
        proof {
            lemma_dash_end_representable(*sidx, sidx_box_offset, sidx_box_size, i as int);
            lemma_sum_take_succ(sidx.references@, i as int);
            lemma_sum_take_le(sidx.references@, i as int + 1);
        }
        segments.push(
            DashSegment {
                start_time: current_time,
                duration: r.subsegment_duration,
                byte_range_start: current_offset,
                byte_range_end: current_offset + r.referenced_size as u64 - 1,
                contains_sap: r.starts_with_sap,
                sap_type: r.sap_type,
            },
        );
        current_time = current_time + r.subsegment_duration as u64;
        current_offset = current_offset + r.referenced_size as u64;
    }
    proof {
        assert(segments@ =~= spec_dash_segments(*sidx, sidx_box_offset, sidx_box_size));
    }
    segments
}

/// Whether time `t` (in timescale units) falls in the segment's half-open
/// interval `[start, start + duration)`.
pub open spec fn segment_contains_time(seg: DashSegment, t: u64) -> bool {
    seg.start_time <= t < seg.start_time + seg.duration
}

/// Finds the first derived segment whose half-open interval contains `t`
/// (in timescale units); none if `t` is before the first segment, in a gap,
/// or at/after the end of the last.
pub fn find_segment_for_time(segments: &[DashSegment], t: u64) -> (r: Option<DashSegment>)
    ensures
        r matches Some(seg) ==> exists|i: int|
            0 <= i < segments@.len() && segments@[i] == seg && segment_contains_time(seg, t) && (
            forall|j: int| 0 <= j < i ==> !segment_contains_time(segments@[j], t)),
        r is None ==> forall|i: int|
            0 <= i < segments@.len() ==> !segment_contains_time(segments@[i], t),
{
    for i in 0..segments.len()
        invariant
            forall|j: int| 0 <= j < i ==> !segment_contains_time(segments@[j], t),
    {
        let seg = segments[i];
        if seg.start_time <= t && t - seg.start_time < seg.duration as u64 {
            return Some(seg);
        }
    }
    None
}

/// The request line naming a segment's inclusive byte range.
pub open spec fn spec_range_request(base_url: Seq<char>, seg: DashSegment) -> Seq<char> {
    base_url + "; Range: bytes="@ + spec_decimal(seg.byte_range_start as int) + "-"@
        + spec_decimal(seg.byte_range_end as int)
}

/// Renders the byte-range request line for one segment, to be turned into an
/// actual HTTP request by the delivery layer.
pub fn get_range_request(base_url: &str, segment: &DashSegment) -> (s: String)
    ensures
        s@ == spec_range_request(base_url@, *segment),
{
    let mut s = base_url.to_owned();
    s.append("; Range: bytes=");
    push_decimal(&mut s, segment.byte_range_start);
    s.append("-");
    push_decimal(&mut s, segment.byte_range_end);
    proof {
        assert(s@ =~= spec_range_request(base_url@, *segment));
    }
    s
}

/// Law: consecutive derived segments are contiguous — each starts exactly
/// when and where its predecessor ends, in time and in the byte stream, with
/// no gap and no overlap.
pub proof fn lemma_seek_segments_contiguous(b: SidxBox, box_offset: u64, box_size: u64, i: int)
    requires
        geometry_fits(b, box_offset, box_size),
        0 <= i < b.references@.len() - 1,
    ensures
        ({
            let segs = spec_seek_segments(b, box_offset, box_size);
            &&& segs[i + 1].start_time == segs[i].start_time + segs[i].duration
            &&& segs[i + 1].byte_offset == segs[i].byte_offset + segs[i].byte_size
        }),
{
    lemma_sum_take_succ(b.references@, i);
    lemma_sum_take_le(b.references@, i + 1);
    lemma_sum_take_monotone(b.references@, i, i + 1);
    lemma_sum_take_monotone(b.references@, i + 1, b.references@.len() as int);
    lemma_sum_durations_nonneg(b.references@.take(i));
    lemma_sum_sizes_nonneg(b.references@.take(i));
    assert(b.references@.take(b.references@.len() as int) =~= b.references@);
}

/// Law: consecutive derived byte ranges are adjacent — segment `i + 1`'s
/// range starts one byte after segment `i`'s inclusive end, and its start
/// time is exactly segment `i`'s start plus its duration.
pub proof fn lemma_dash_segments_contiguous(b: SidxBox, box_offset: u64, box_size: u64, i: int)
    requires
        geometry_fits(b, box_offset, box_size),
        dash_ranges_representable(b, box_offset, box_size),
        0 <= i < b.references@.len() - 1,
    ensures
        ({
            let segs = spec_dash_segments(b, box_offset, box_size);
            &&& segs[i + 1].start_time == segs[i].start_time + segs[i].duration
            &&& segs[i + 1].byte_range_start == segs[i].byte_range_end + 1
        }),
{
    lemma_dash_end_representable(b, box_offset, box_size, i);
    lemma_sum_take_succ(b.references@, i);
    lemma_sum_take_le(b.references@, i + 1);
    lemma_sum_take_monotone(b.references@, i, i + 1);
    lemma_sum_take_monotone(b.references@, i + 1, b.references@.len() as int);
    lemma_sum_durations_nonneg(b.references@.take(i));
    lemma_sum_sizes_nonneg(b.references@.take(i));
    assert(b.references@.take(b.references@.len() as int) =~= b.references@);
}

} // verus!
