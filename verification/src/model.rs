//! In-memory model of a Segment Index ("sidx") box and its references,
//! together with the structural invariants the codec maintains.

use vstd::prelude::*;
use vstd::string::StringExecFns;

use crate::text::{push_decimal, spec_decimal};

verus! {

/// Four-character code identifying a Segment Index box ("sidx").
pub const SIDX_BOX_TYPE: u32 = 0x73696478;

/// Size in bytes of the generic box header (32-bit size + type tag).
pub const HEADER_SIZE: u64 = 8;

/// One entry of a Segment Index box.
#[derive(Clone, Copy, Debug, PartialEq, Eq, Structural)]
pub struct SidxReference {
    /// 0 = points to media data, 1 = points to another index box.
    pub reference_type: u8,
    /// Size in bytes of the referenced range; must fit in 31 bits.
    pub referenced_size: u32,
    /// Duration of the referenced range, in timescale units.
    pub subsegment_duration: u32,
    /// Whether the referenced range begins with a Stream Access Point.
    pub starts_with_sap: bool,
    /// Kind of the access point; must fit in 3 bits.
    pub sap_type: u8,
    /// Time offset of the access point within the range; must fit in 28 bits.
    pub sap_delta_time: u32,
}

impl SidxReference {
    /// Every field fits the bit budget of its encoded form.
    pub open spec fn wf(self) -> bool {
        &&& self.reference_type <= 1
        &&& self.referenced_size <= 0x7FFF_FFFF
        &&& self.sap_type <= 7
        &&& self.sap_delta_time <= 0x0FFF_FFFF
    }

    /// Runtime check of `wf`.
    pub fn check(&self) -> (r: bool)
        ensures
            r == self.wf(),
    {
        self.reference_type <= 1 && self.referenced_size <= 0x7FFF_FFFF && self.sap_type <= 7
            && self.sap_delta_time <= 0x0FFF_FFFF
    }
}

/// Structural equality of two boxes: every field equal, the references
/// compared as sequences.
pub open spec fn same_box(a: SidxBox, b: SidxBox) -> bool {
    &&& a.version == b.version
    &&& a.flags == b.flags
    &&& a.reference_id == b.reference_id
    &&& a.timescale == b.timescale
    &&& a.earliest_presentation_time == b.earliest_presentation_time
    &&& a.first_offset == b.first_offset
    &&& a.references@ == b.references@
}

/// One decoded Segment Index box.
#[derive(Clone, Debug)]
pub struct SidxBox {
    /// 0 selects 32-bit widths for the two time/offset fields, anything else 64-bit.
    pub version: u8,
    /// 24-bit flag word, stored widened; the top 8 bits must be zero to encode.
    pub flags: u32,
    /// Identifier of the referenced stream; opaque to this crate.
    pub reference_id: u32,
    /// Timescale units per second; zero is rejected at decode.
    pub timescale: u32,
    /// Time of the first referenced segment, in timescale units.
    pub earliest_presentation_time: u64,
    /// Bytes between the end of this box and the first referenced byte.
    pub first_offset: u64,
    /// The referenced ranges, in decode order == playback/byte order.
    pub references: Vec<SidxReference>,
}

impl SidxBox {
    /// Every field fits the bit budget of its encoded form, so the box can be
    /// encoded without truncating anything.
    pub open spec fn encodable(self) -> bool {
        &&& self.flags < 0x0100_0000
        &&& self.references@.len() <= 0xFFFF
        &&& self.version == 0 ==> self.earliest_presentation_time <= u32::MAX
            && self.first_offset <= u32::MAX
        &&& forall|i: int|
            0 <= i < self.references@.len() ==> (#[trigger] self.references@[i]).wf()
    }

    /// Exact encoded byte length of the box, header included, as a function of
    /// `version` and the reference count alone.
    pub open spec fn spec_box_size(self) -> int {
        HEADER_SIZE + 4 + 4 + 4 + (if self.version == 0 {
            8int
        } else {
            16int
        }) + 4 + 12 * self.references@.len()
    }

    /// Byte length of the payload that follows the generic box header.
    pub open spec fn spec_payload_size(self) -> int {
        self.spec_box_size() - HEADER_SIZE
    }

    /// The box type tag: this is a "sidx" box.
    pub fn box_type(&self) -> (r: u32)
        ensures
            r == SIDX_BOX_TYPE,
    {
        SIDX_BOX_TYPE
    }

    /// The diagnostic summary line: the box's identifying fields and its
    /// reference count, in decimal. Diagnostics only; round-trip correctness
    /// never depends on it.
    pub open spec fn spec_summary(self) -> Seq<char> {
        "reference_id="@ + spec_decimal(self.reference_id as int) + " timescale="@ + spec_decimal(
            self.timescale as int,
        ) + " earliest_presentation_time="@ + spec_decimal(self.earliest_presentation_time as int)
            + " first_offset="@ + spec_decimal(self.first_offset as int) + " references="@
            + spec_decimal(self.references@.len() as int)
    }

    /// Renders the diagnostic summary line.
    pub fn summary(&self) -> (s: String)
        ensures
            s@ == self.spec_summary(),
    {
        let mut s = String::new();
        s.append("reference_id=");
        push_decimal(&mut s, self.reference_id as u64);
        s.append(" timescale=");
        push_decimal(&mut s, self.timescale as u64);
        s.append(" earliest_presentation_time=");
        push_decimal(&mut s, self.earliest_presentation_time);
        s.append(" first_offset=");
        push_decimal(&mut s, self.first_offset);
        s.append(" references=");
        push_decimal(&mut s, self.references.len() as u64);
        proof {
            assert(s@ =~= self.spec_summary());
        }
        s
    }

    /// Exact number of bytes `write_box` produces for this value.
    pub fn box_size(&self) -> (r: u64)
        requires
            self.spec_box_size() <= u64::MAX,
        ensures
            r == self.spec_box_size(),
    {
        let fixed: u64 = if self.version == 0 {
            32
        } else {
            40
        };
        fixed + 12 * (self.references.len() as u64)
    }
}

impl PartialEq for SidxBox {
    /// Structural equality: every field equal, references element by element.
    fn eq(&self, other: &Self) -> (r: bool) {
        if !(self.version == other.version && self.flags == other.flags
            && self.reference_id == other.reference_id && self.timescale == other.timescale
            && self.earliest_presentation_time == other.earliest_presentation_time
            && self.first_offset == other.first_offset) {
            return false;
        }
        if self.references.len() != other.references.len() {
            return false;
        }
        for i in 0..self.references.len()
            invariant
                self.references@.len() == other.references@.len(),
                forall|j: int| 0 <= j < i ==> self.references@[j] == other.references@[j],
        {
            if self.references[i] != other.references[i] {
                return false;
            }
        }
        proof {
            assert(self.references@ =~= other.references@);
        }
        true
    }
}

impl vstd::std_specs::cmp::PartialEqSpecImpl for SidxBox {
    open spec fn obeys_eq_spec() -> bool {
        true
    }

    open spec fn eq_spec(&self, other: &Self) -> bool {
        same_box(*self, *other)
    }
}

impl Default for SidxReference {
    /// All fields zero; trivially well formed.
    fn default() -> (r: Self)
        ensures
            r == (SidxReference {
                reference_type: 0,
                referenced_size: 0,
                subsegment_duration: 0,
                starts_with_sap: false,
                sap_type: 0,
                sap_delta_time: 0,
            }),
            r.wf(),
    {
        SidxReference {
            reference_type: 0,
            referenced_size: 0,
            subsegment_duration: 0,
            starts_with_sap: false,
            sap_type: 0,
            sap_delta_time: 0,
        }
    }
}

impl Default for SidxBox {
    /// All fields zero and no references; encodable, but its timescale is
    /// zero, so a real value must set one before it can round-trip.
    fn default() -> (r: Self)
        ensures
            r.version == 0,
            r.flags == 0,
            r.reference_id == 0,
            r.timescale == 0,
            r.earliest_presentation_time == 0,
            r.first_offset == 0,
            r.references@ =~= Seq::<SidxReference>::empty(),
            r.encodable(),
    {
        SidxBox {
            version: 0,
            flags: 0,
            reference_id: 0,
            timescale: 0,
            earliest_presentation_time: 0,
            first_offset: 0,
            references: Vec::new(),
        }
    }
}

} // verus!
