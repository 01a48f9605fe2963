//! Codec and derived-geometry engine for the Segment Index ("sidx") box of
//! fragmented media containers.
//!
//! The crate models a decoded sidx box as a plain value ([`SidxBox`]),
//! decodes it bit-exactly from bytes and encodes it back ([`SidxBox::read_box`],
//! [`SidxBox::write_box`]), and derives from it the ordered segment tables
//! used for seeking and adaptive byte-range delivery
//! ([`sidx_to_seek_segments`], [`parse_dash_sidx`]). Locating the box inside
//! the container and performing any I/O are the caller's concern: the decoder
//! starts at the box's payload, and the geometry engine is handed the box's
//! own file offset and encoded size.

pub mod codec;
pub mod geometry;
pub mod model;
pub mod text;
pub mod wire;

pub use geometry::{
    find_segment_for_time, get_range_request, parse_dash_sidx, sidx_to_seek_segments, DashSegment,
    SeekSegment,
};
pub use model::{SidxBox, SidxReference};

use vstd::prelude::*;

verus! {

/// Error kinds the codec reports.
#[derive(Clone, Copy, Debug, PartialEq, Eq, Structural)]
pub enum SidxError {
    /// The byte stream ends before all declared fields and references are read.
    MalformedInput,
    /// The timescale field is zero, which makes every derived time undefined.
    InvalidTimescale,
    /// A value exceeds the bit budget of its encoded field.
    FieldOverflow,
}

} // verus!
