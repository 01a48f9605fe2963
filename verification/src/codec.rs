//! Binary codec for the Segment Index box: bit-exact decode from bytes and
//! bit-exact encode back to bytes, with the round-trip laws relating them.
//!
//! All multi-byte fields are big-endian. The decoder starts at the box's
//! payload (the generic box header has already been consumed by the caller);
//! the encoder produces the whole box, generic header included.

use vstd::prelude::*;
use vstd::arithmetic::div_mod::{
    lemma_div_denominator, lemma_fundamental_div_mod, lemma_fundamental_div_mod_converse,
    lemma_mod_bound,
};

use crate::model::{same_box, SidxBox, SidxReference, SIDX_BOX_TYPE};
use crate::wire::{
    read_u16_be, read_u32_be, read_u64_be, spec_read_u16_be, spec_read_u32_be, spec_read_u64_be,
    spec_u16_to_be_bytes, spec_u32_to_be_bytes, spec_u64_to_be_bytes, write_u16_be, write_u32_be,
    write_u64_be, lemma_u16_be_value, lemma_u32_be_value, lemma_u64_be_value,
};
use crate::SidxError;

verus! {

/// The 32-bit word holding `version` in its top byte and `flags` below.
pub open spec fn spec_vf_word(b: SidxBox) -> u32 {
    (b.version * 0x0100_0000 + b.flags) as u32
}

/// The 32-bit word holding `reference_type` in bit 31 and `referenced_size` below.
pub open spec fn spec_word1(r: SidxReference) -> u32 {
    (r.reference_type * 0x8000_0000 + r.referenced_size) as u32
}

/// The 32-bit word holding the SAP flag in bit 31, `sap_type` in bits 30-28
/// and `sap_delta_time` in bits 27-0.
pub open spec fn spec_word3(r: SidxReference) -> u32 {
    ((if r.starts_with_sap {
        0x8000_0000int
    } else {
        0int
    }) + r.sap_type * 0x1000_0000 + r.sap_delta_time) as u32
}

/// The 12 encoded bytes of one reference entry.
pub open spec fn spec_encode_ref(r: SidxReference) -> Seq<u8> {
    spec_u32_to_be_bytes(spec_word1(r)) + spec_u32_to_be_bytes(r.subsegment_duration)
        + spec_u32_to_be_bytes(spec_word3(r))
}

/// The encoded bytes of a reference sequence, in order.
pub open spec fn spec_encode_refs(rs: Seq<SidxReference>) -> Seq<u8>
    decreases rs.len(),
{
    if rs.len() == 0 {
        Seq::empty()
    } else {
        spec_encode_refs(rs.drop_last()) + spec_encode_ref(rs.last())
    }
}

/// Payload bytes before the reference entries: 24 for version 0, else 32.
pub open spec fn spec_fixed_size(version: u8) -> int {
    if version == 0 {
        24
    } else {
        32
    }
}

/// The fixed-width payload fields that precede the reference entries.
pub open spec fn spec_payload_head(b: SidxBox) -> Seq<u8> {
    spec_u32_to_be_bytes(spec_vf_word(b)) + spec_u32_to_be_bytes(b.reference_id)
        + spec_u32_to_be_bytes(b.timescale) + (if b.version == 0 {
        spec_u32_to_be_bytes(b.earliest_presentation_time as u32) + spec_u32_to_be_bytes(
            b.first_offset as u32,
        )
    } else {
        spec_u64_to_be_bytes(b.earliest_presentation_time) + spec_u64_to_be_bytes(b.first_offset)
    }) + spec_u16_to_be_bytes(0) + spec_u16_to_be_bytes(b.references@.len() as u16)
}

/// The payload bytes of a box: everything after the generic box header.
pub open spec fn spec_encode_payload(b: SidxBox) -> Seq<u8> {
    spec_payload_head(b) + spec_encode_refs(b.references@)
}

/// The full encoded box: generic header (size + type tag), then the payload.
pub open spec fn spec_encode_box(b: SidxBox) -> Seq<u8> {
    spec_u32_to_be_bytes(b.spec_box_size() as u32) + spec_u32_to_be_bytes(SIDX_BOX_TYPE)
        + spec_encode_payload(b)
}

/// The reference count a payload declares, read from its count field.
pub open spec fn spec_declared_count(s: Seq<u8>) -> int {
    spec_read_u16_be(s, spec_fixed_size(s[0]) - 2)
}

/// The payload length its own fixed fields call for.
pub open spec fn spec_needed_len(s: Seq<u8>) -> int {
    spec_fixed_size(s[0]) + 12 * spec_declared_count(s)
}

/// A reference sequence encodes to exactly 12 bytes per entry.
pub proof fn lemma_encode_refs_len(rs: Seq<SidxReference>)
    ensures
        spec_encode_refs(rs).len() == 12 * rs.len(),
    decreases rs.len(),
{
    if rs.len() > 0 {
        lemma_encode_refs_len(rs.drop_last());
    }
}

/// Appending one reference appends its 12 bytes.
pub proof fn lemma_encode_refs_push(rs: Seq<SidxReference>, r: SidxReference)
    ensures
        spec_encode_refs(rs.push(r)) == spec_encode_refs(rs) + spec_encode_ref(r),
{
    assert(rs.push(r).drop_last() =~= rs);
    assert(rs.push(r).last() == r);
}

/// The payload length matches `spec_payload_size`.
pub proof fn lemma_encode_payload_len(b: SidxBox)
    ensures
        spec_encode_payload(b).len() == b.spec_payload_size(),
{
    lemma_encode_refs_len(b.references@);
}

/// The whole box length matches `spec_box_size`.
pub proof fn lemma_encode_box_len(b: SidxBox)
    ensures
        spec_encode_box(b).len() == b.spec_box_size(),
{
    lemma_encode_payload_len(b);
}

impl SidxBox {
    /// Encodes this box as bytes: the generic box header (`box_size()` and the
    /// "sidx" type tag), then every payload field in wire order.
    ///
    /// Succeeds exactly when every field fits its bit budget; otherwise no
    /// byte is produced and the overflowing value is reported rather than
    /// truncated.
    pub fn write_box(&self) -> (r: Result<Vec<u8>, SidxError>)
        ensures
            r is Ok <==> self.encodable(),
            r matches Ok(bytes) ==> bytes@ == spec_encode_box(*self) && bytes@.len()
                == self.spec_box_size(),
            !self.encodable() ==> r == Err::<Vec<u8>, SidxError>(SidxError::FieldOverflow),
    {
        if self.flags >= 0x0100_0000 {
            return Err(SidxError::FieldOverflow);
        }
        if self.references.len() > 0xFFFF {
            return Err(SidxError::FieldOverflow);
        }
        if self.version == 0 && (self.earliest_presentation_time > 0xFFFF_FFFF || self.first_offset
            > 0xFFFF_FFFF) {
            return Err(SidxError::FieldOverflow);
        }
        for i in 0..self.references.len()
            invariant
                forall|j: int| 0 <= j < i ==> (#[trigger] self.references@[j]).wf(),
        {
            if !self.references[i].check() {
                return Err(SidxError::FieldOverflow);
            }
        }
        assert(self.encodable());
        let mut out: Vec<u8> = Vec::new();
        let size = self.box_size();
        write_u32_be(&mut out, size as u32);
        write_u32_be(&mut out, SIDX_BOX_TYPE);
        let vf: u32 = (self.version as u32) * 0x0100_0000 + self.flags;
        write_u32_be(&mut out, vf);
        write_u32_be(&mut out, self.reference_id);
        write_u32_be(&mut out, self.timescale);
        if self.version == 0 {
            write_u32_be(&mut out, self.earliest_presentation_time as u32);
            write_u32_be(&mut out, self.first_offset as u32);
        } else {
            write_u64_be(&mut out, self.earliest_presentation_time);
            write_u64_be(&mut out, self.first_offset);
        }
        write_u16_be(&mut out, 0);
        write_u16_be(&mut out, self.references.len() as u16);
        let ghost head = spec_u32_to_be_bytes(self.spec_box_size() as u32) + spec_u32_to_be_bytes(
            SIDX_BOX_TYPE,
        ) + spec_payload_head(*self);
        proof {
            assert(vf == spec_vf_word(*self));
            assert(out@ =~= head + spec_encode_refs(self.references@.take(0)));
        }
        for i in 0..self.references.len()
            invariant
                self.encodable(),
                head == spec_u32_to_be_bytes(self.spec_box_size() as u32) + spec_u32_to_be_bytes(
                    SIDX_BOX_TYPE,
                ) + spec_payload_head(*self),
                out@ == head + spec_encode_refs(self.references@.take(i as int)),
        {
            let r = self.references[i];
            assert(r.wf());
            let w1: u32 = (r.reference_type as u32) * 0x8000_0000 + r.referenced_size;
            write_u32_be(&mut out, w1);
            write_u32_be(&mut out, r.subsegment_duration);
            let w3: u32 = (if r.starts_with_sap {
                0x8000_0000u32
            } else {
                0u32
            }) + (r.sap_type as u32) * 0x1000_0000 + r.sap_delta_time;
            write_u32_be(&mut out, w3);
            proof {
                assert(w1 == spec_word1(r));
                assert(w3 == spec_word3(r));
                lemma_encode_refs_push(self.references@.take(i as int), r);
                assert(self.references@.take(i as int).push(r) =~= self.references@.take(
                    i as int + 1,
                ));
                assert(out@ =~= head + spec_encode_refs(self.references@.take(i as int + 1)));
            }
        }
        proof {
            assert(self.references@.take(self.references@.len() as int) =~= self.references@);
            assert(out@ =~= spec_encode_box(*self));
            lemma_encode_box_len(*self);
        }
        Ok(out)
    }

    /// Decodes a box from `data`, which starts at the box's payload (the
    /// generic box header has already been consumed). Trailing bytes beyond
    /// the declared references are left untouched; the number of bytes
    /// consumed is returned beside the box.
    ///
    /// Succeeds exactly when the bytes cover every declared field and
    /// reference and the timescale field is nonzero. The decoded value
    /// re-encodes to the consumed bytes whenever the input's reserved pair is
    /// zero (a nonzero reserved pair is tolerated but rewritten as zero).
    #[verifier::rlimit(60)]
    pub fn read_box(data: &[u8]) -> (r: Result<(SidxBox, usize), SidxError>)
        ensures
            r matches Ok(p) ==> ({
                &&& p.0.encodable()
                &&& p.0.timescale != 0
                &&& p.0.version == data@[0]
                &&& p.1 == p.0.spec_payload_size()
                &&& p.1 <= data@.len()
                &&& spec_encode_payload(p.0) == data@.subrange(0, p.1 as int).update(
                    spec_fixed_size(data@[0]) - 4,
                    0u8,
                ).update(spec_fixed_size(data@[0]) - 3, 0u8)
                &&& (data@[spec_fixed_size(data@[0]) - 4] == 0 && data@[spec_fixed_size(data@[0])
                    - 3] == 0 ==> spec_encode_payload(p.0) == data@.subrange(0, p.1 as int))
            }),
            data@.len() < 12 ==> r == Err::<(SidxBox, usize), SidxError>(SidxError::MalformedInput),
            data@.len() >= 12 && spec_read_u32_be(data@, 8) == 0 ==> r == Err::<
                (SidxBox, usize),
                SidxError,
            >(SidxError::InvalidTimescale),
            data@.len() >= 12 && spec_read_u32_be(data@, 8) != 0 && data@.len() < spec_fixed_size(
                data@[0],
            ) ==> r == Err::<(SidxBox, usize), SidxError>(SidxError::MalformedInput),
            data@.len() >= spec_fixed_size(data@[0]) && spec_read_u32_be(data@, 8) != 0
                && data@.len() < spec_needed_len(data@) ==> r == Err::<
                (SidxBox, usize),
                SidxError,
            >(SidxError::MalformedInput),
            data@.len() >= spec_fixed_size(data@[0]) && spec_read_u32_be(data@, 8) != 0
                && data@.len() >= spec_needed_len(data@) ==> r is Ok,
    {
        if data.len() < 12 {
            return Err(SidxError::MalformedInput);
        }
        let vf = read_u32_be(data, 0);
        let version: u8 = (vf / 0x0100_0000) as u8;
        let flags: u32 = vf % 0x0100_0000;
        proof {
            let s = data@;
            let rest = (s[1] * 0x100 + s[2]) * 0x100 + s[3];
            assert(vf == s[0] * 0x0100_0000 + rest);
            lemma_fundamental_div_mod_converse(vf as int, 0x0100_0000, s[0] as int, rest);
            assert(version == s[0]);
            assert(flags == rest);
        }
        let reference_id = read_u32_be(data, 4);
        let timescale = read_u32_be(data, 8);
        if timescale == 0 {
            return Err(SidxError::InvalidTimescale);
        }
        let fixed: usize = if version == 0 {
            24
        } else {
            32
        };
        if data.len() < fixed {
            return Err(SidxError::MalformedInput);
        }
        let (earliest_presentation_time, first_offset) = if version == 0 {
            (read_u32_be(data, 12) as u64, read_u32_be(data, 16) as u64)
        } else {
            (read_u64_be(data, 12), read_u64_be(data, 20))
        };
        let count = read_u16_be(data, fixed - 2) as usize;
        proof {
            assert(count == spec_declared_count(data@));
        }
        let needed = fixed + 12 * count;
        if data.len() < needed {
            return Err(SidxError::MalformedInput);
        }
        let mut references: Vec<SidxReference> = Vec::new();
        let mut i: usize = 0;
        while i < count
            invariant
                i <= count,
                fixed == spec_fixed_size(data@[0]),
                needed == fixed + 12 * count,
                needed <= data@.len(),
                references@.len() == i,
                forall|j: int| 0 <= j < i ==> (#[trigger] references@[j]).wf(),
                spec_encode_refs(references@) == data@.subrange(
                    fixed as int,
                    fixed as int + 12 * i,
                ),
            decreases count - i,
        {
            let pos = fixed + 12 * i;
            let w1 = read_u32_be(data, pos);
            let reference_type: u8 = (w1 / 0x8000_0000) as u8;
            let referenced_size: u32 = w1 % 0x8000_0000;
            let subsegment_duration = read_u32_be(data, pos + 4);
            let w3 = read_u32_be(data, pos + 8);
            let q: u32 = w3 / 0x1000_0000;
            let starts_with_sap: bool = q >= 8;
            let sap_type: u8 = (q % 8) as u8;
            let sap_delta_time: u32 = w3 % 0x1000_0000;
            proof {
                lemma_fundamental_div_mod(w1 as int, 0x8000_0000);
                lemma_mod_bound(w1 as int, 0x8000_0000);
                lemma_fundamental_div_mod(w3 as int, 0x1000_0000);
                lemma_mod_bound(w3 as int, 0x1000_0000);
                lemma_fundamental_div_mod(q as int, 8);
                lemma_mod_bound(q as int, 8);
            }
            let r = SidxReference {
                reference_type,
                referenced_size,
                subsegment_duration,
                starts_with_sap,
                sap_type,
                sap_delta_time,
            };
            proof {
                assert(r.wf());
                assert(spec_word1(r) == w1);
                assert(spec_word3(r) == w3) by {
                    assert(q == (if r.starts_with_sap {
                        1int
                    } else {
                        0int
                    }) * 8 + r.sap_type);
                    assert(w3 == q * 0x1000_0000 + r.sap_delta_time);
                };
                lemma_encode_refs_push(references@, r);
                assert(spec_encode_ref(r) =~= data@.subrange(pos as int, pos as int + 12)) by {
                    assert(data@.subrange(pos as int, pos as int + 12) =~= data@.subrange(
                        pos as int,
                        pos as int + 4,
                    ) + data@.subrange(pos as int + 4, pos as int + 8) + data@.subrange(
                        pos as int + 8,
                        pos as int + 12,
                    ));
                };
                assert(spec_encode_refs(references@.push(r)) =~= data@.subrange(
                    fixed as int,
                    fixed as int + 12 * (i + 1),
                ));
            }
            references.push(r);
            i += 1;
        }
        let b = SidxBox {
            version,
            flags,
            reference_id,
            timescale,
            earliest_presentation_time,
            first_offset,
            references,
        };
        proof {
            assert(b.encodable());
            assert(needed == b.spec_payload_size());
            let s = data@;
            let t = s.subrange(0, needed as int).update(fixed as int - 4, 0u8).update(
                fixed as int - 3,
                0u8,
            );
            assert(vf == spec_vf_word(b));
            assert(spec_u32_to_be_bytes(vf) == s.subrange(0, 4));
            assert(spec_u16_to_be_bytes(0) =~= t.subrange(fixed as int - 4, fixed as int - 2));
            if b.version == 0 {
                assert(spec_u32_to_be_bytes(b.earliest_presentation_time as u32) == s.subrange(
                    12,
                    16,
                ));
                assert(spec_u32_to_be_bytes(b.first_offset as u32) == s.subrange(16, 20));
            }
            assert(spec_payload_head(b) =~= t.subrange(0, fixed as int));
            assert(spec_encode_refs(b.references@) =~= t.subrange(fixed as int, needed as int));
            assert(spec_encode_payload(b) =~= t);
            if s[fixed - 4] == 0 && s[fixed - 3] == 0 {
                assert(t =~= s.subrange(0, needed as int));
            }
        }
        Ok((b, needed))
    }
}

/// The version and flags of an encodable box can be recovered from their
/// shared 32-bit word.
proof fn lemma_vf_word_fields(b: SidxBox)
    requires
        b.flags < 0x0100_0000,
    ensures
        spec_vf_word(b) / 0x0100_0000 == b.version,
        spec_vf_word(b) % 0x0100_0000 == b.flags,
{
    lemma_fundamental_div_mod_converse(
        spec_vf_word(b) as int,
        0x0100_0000,
        b.version as int,
        b.flags as int,
    );
}

/// The fields of a well-formed reference can be recovered from its first
/// packed word.
proof fn lemma_word1_fields(r: SidxReference)
    requires
        r.wf(),
    ensures
        spec_word1(r) / 0x8000_0000 == r.reference_type,
        spec_word1(r) % 0x8000_0000 == r.referenced_size,
{
    lemma_fundamental_div_mod_converse(
        spec_word1(r) as int,
        0x8000_0000,
        r.reference_type as int,
        r.referenced_size as int,
    );
}

/// The fields of a well-formed reference can be recovered from its third
/// packed word.
proof fn lemma_word3_fields(r: SidxReference)
    requires
        r.wf(),
    ensures
        spec_word3(r) % 0x1000_0000 == r.sap_delta_time,
        (spec_word3(r) / 0x1000_0000) % 8 == r.sap_type,
        (spec_word3(r) / 0x1000_0000) / 8 == (if r.starts_with_sap {
            1int
        } else {
            0int
        }),
{
    let q = (if r.starts_with_sap {
        1int
    } else {
        0int
    }) * 8 + r.sap_type;
    assert(spec_word3(r) == q * 0x1000_0000 + r.sap_delta_time);
    lemma_fundamental_div_mod_converse(
        spec_word3(r) as int,
        0x1000_0000,
        q,
        r.sap_delta_time as int,
    );
    lemma_fundamental_div_mod_converse(
        q,
        8,
        if r.starts_with_sap {
            1int
        } else {
            0int
        },
        r.sap_type as int,
    );
}

/// No two well-formed references encode to the same 12 bytes.
pub proof fn lemma_encode_ref_injective(x: SidxReference, y: SidxReference)
    requires
        x.wf(),
        y.wf(),
        spec_encode_ref(x) == spec_encode_ref(y),
    ensures
        x == y,
{
    assert(spec_encode_ref(x).subrange(0, 4) =~= spec_u32_to_be_bytes(spec_word1(x)));
    assert(spec_encode_ref(y).subrange(0, 4) =~= spec_u32_to_be_bytes(spec_word1(y)));
    assert(spec_encode_ref(x).subrange(4, 8) =~= spec_u32_to_be_bytes(x.subsegment_duration));
    assert(spec_encode_ref(y).subrange(4, 8) =~= spec_u32_to_be_bytes(y.subsegment_duration));
    assert(spec_encode_ref(x).subrange(8, 12) =~= spec_u32_to_be_bytes(spec_word3(x)));
    assert(spec_encode_ref(y).subrange(8, 12) =~= spec_u32_to_be_bytes(spec_word3(y)));
    lemma_u32_be_value(spec_word1(x));
    lemma_u32_be_value(spec_word1(y));
    lemma_u32_be_value(x.subsegment_duration);
    lemma_u32_be_value(y.subsegment_duration);
    lemma_u32_be_value(spec_word3(x));
    lemma_u32_be_value(spec_word3(y));
    assert(spec_word1(x) == spec_word1(y));
    assert(x.subsegment_duration == y.subsegment_duration);
    assert(spec_word3(x) == spec_word3(y));
    lemma_word1_fields(x);
    lemma_word1_fields(y);
    lemma_word3_fields(x);
    lemma_word3_fields(y);
}

/// The 12 bytes of entry `j` sit at offset `12 * j` of the encoded sequence.
pub proof fn lemma_encode_refs_index(rs: Seq<SidxReference>, j: int)
    requires
        0 <= j < rs.len(),
    ensures
        spec_encode_refs(rs).subrange(12 * j, 12 * j + 12) == spec_encode_ref(rs[j]),
    decreases rs.len(),
{
    lemma_encode_refs_len(rs);
    lemma_encode_refs_len(rs.drop_last());
    if j == rs.len() - 1 {
        assert(spec_encode_refs(rs).subrange(12 * j, 12 * j + 12) =~= spec_encode_ref(rs[j]));
    } else {
        lemma_encode_refs_index(rs.drop_last(), j);
        assert(spec_encode_refs(rs).subrange(12 * j, 12 * j + 12) =~= spec_encode_refs(
            rs.drop_last(),
        ).subrange(12 * j, 12 * j + 12));
    }
}

/// What the decoder's probes find in an encodable box's payload: each fixed
/// field reads back as written, the reserved pair is zero, the declared count
/// is the reference count, the declared length is the payload length, and
/// entry `j`'s bytes are the encoding of reference `j`.
#[verifier::rlimit(60)]
pub proof fn lemma_encode_payload_probe(b: SidxBox)
    requires
        b.encodable(),
    ensures
        ({
            let s = spec_encode_payload(b);
            let fixed = spec_fixed_size(b.version);
            &&& s.len() == b.spec_payload_size()
            &&& s[0] == b.version
            &&& spec_read_u32_be(s, 0) == spec_vf_word(b)
            &&& spec_read_u32_be(s, 4) == b.reference_id
            &&& spec_read_u32_be(s, 8) == b.timescale
            &&& (b.version == 0 ==> spec_read_u32_be(s, 12) == b.earliest_presentation_time
                && spec_read_u32_be(s, 16) == b.first_offset)
            &&& (b.version != 0 ==> spec_read_u64_be(s, 12) == b.earliest_presentation_time
                && spec_read_u64_be(s, 20) == b.first_offset)
            &&& s[fixed - 4] == 0
            &&& s[fixed - 3] == 0
            &&& spec_read_u16_be(s, fixed - 2) == b.references@.len()
            &&& spec_declared_count(s) == b.references@.len()
            &&& spec_needed_len(s) == s.len()
            &&& forall|j: int|
                0 <= j < b.references@.len() ==> s.subrange(fixed + 12 * j, fixed + 12 * j + 12)
                    == spec_encode_ref(b.references@[j])
        }),
{
    let s = spec_encode_payload(b);
    let fixed = spec_fixed_size(b.version);
    let vf = spec_vf_word(b);
    lemma_encode_payload_len(b);
    lemma_encode_refs_len(b.references@);
    assert(spec_payload_head(b).len() == fixed);
    assert(s.subrange(0, 4) =~= spec_u32_to_be_bytes(vf));
    assert(s.subrange(4, 8) =~= spec_u32_to_be_bytes(b.reference_id));
    assert(s.subrange(8, 12) =~= spec_u32_to_be_bytes(b.timescale));
    assert(s.subrange(fixed - 4, fixed - 2) =~= spec_u16_to_be_bytes(0));
    assert(s.subrange(fixed - 2, fixed) =~= spec_u16_to_be_bytes(b.references@.len() as u16));
    lemma_u32_be_value(vf);
    lemma_u32_be_value(b.reference_id);
    lemma_u32_be_value(b.timescale);
    lemma_u16_be_value(b.references@.len() as u16);
    assert(spec_read_u32_be(s, 0) == vf);
    assert(spec_read_u32_be(s, 4) == b.reference_id);
    assert(spec_read_u32_be(s, 8) == b.timescale);
    assert(spec_read_u16_be(s, fixed - 2) == b.references@.len());
    // The top byte of the version/flags word is the version.
    assert(s[0] == vf / 0x100 / 0x100 / 0x100);
    lemma_div_denominator(vf as int, 0x100, 0x100);
    lemma_div_denominator(vf as int, 0x10000, 0x100);
    lemma_vf_word_fields(b);
    assert(s[0] == b.version);
    if b.version == 0 {
        assert(s.subrange(12, 16) =~= spec_u32_to_be_bytes(b.earliest_presentation_time as u32));
        assert(s.subrange(16, 20) =~= spec_u32_to_be_bytes(b.first_offset as u32));
        lemma_u32_be_value(b.earliest_presentation_time as u32);
        lemma_u32_be_value(b.first_offset as u32);
        assert(spec_read_u32_be(s, 12) == b.earliest_presentation_time);
        assert(spec_read_u32_be(s, 16) == b.first_offset);
    } else {
        assert(s.subrange(12, 20) =~= spec_u64_to_be_bytes(b.earliest_presentation_time));
        assert(s.subrange(20, 28) =~= spec_u64_to_be_bytes(b.first_offset));
        lemma_u64_be_value(b.earliest_presentation_time);
        lemma_u64_be_value(b.first_offset);
        assert(spec_read_u64_be(s, 12) == b.earliest_presentation_time);
        assert(spec_read_u64_be(s, 20) == b.first_offset);
    }
    assert forall|j: int| 0 <= j < b.references@.len() implies s.subrange(
        fixed + 12 * j,
        fixed + 12 * j + 12,
    ) == spec_encode_ref(b.references@[j]) by {
        lemma_encode_refs_index(b.references@, j);
        assert(s.subrange(fixed + 12 * j, fixed + 12 * j + 12) =~= spec_encode_refs(
            b.references@,
        ).subrange(12 * j, 12 * j + 12));
    }
}

/// Law: the payload encoding is injective — two encodable boxes with the same
/// payload bytes are the same value, so decoding an encoded payload can only
/// return the value that was encoded.
pub proof fn lemma_encode_payload_injective(a: SidxBox, b: SidxBox)
    requires
        a.encodable(),
        b.encodable(),
        spec_encode_payload(a) == spec_encode_payload(b),
    ensures
        same_box(a, b),
{
    lemma_encode_payload_probe(a);
    lemma_encode_payload_probe(b);
    assert(a.version == b.version);
    lemma_vf_word_fields(a);
    lemma_vf_word_fields(b);
    assert(a.flags == b.flags);
    assert(a.references@.len() == b.references@.len());
    assert forall|j: int| 0 <= j < a.references@.len() implies a.references@[j]
        == b.references@[j] by {
        lemma_encode_ref_injective(a.references@[j], b.references@[j]);
    }
    assert(a.references@ =~= b.references@);
}

/// Law: an encodable box with a nonzero timescale encodes to a payload on
/// which decoding is owed to succeed — it is long enough for its own declared
/// count and its timescale field reads back nonzero.
pub proof fn lemma_encoded_payload_decodes(v: SidxBox)
    requires
        v.encodable(),
        v.timescale != 0,
    ensures
        ({
            let s = spec_encode_payload(v);
            &&& s.len() == v.spec_payload_size()
            &&& s.len() >= 12
            &&& s.len() >= spec_fixed_size(s[0])
            &&& spec_read_u32_be(s, 8) != 0
            &&& spec_needed_len(s) == s.len()
            &&& s[spec_fixed_size(s[0]) - 4] == 0 && s[spec_fixed_size(s[0]) - 3] == 0
        }),
{
    lemma_encode_payload_probe(v);
}

/// Law: round trip through the codec — whatever box the decoder returns for
/// the payload that `write_box(v)` produced is `v` itself, and it consumes the
/// whole payload. The hypotheses are exactly what `read_box` ensures of its
/// result on that payload.
pub proof fn lemma_encode_then_decode(v: SidxBox, b: SidxBox, n: usize)
    requires
        v.encodable(),
        v.timescale != 0,
        b.encodable(),
        n == b.spec_payload_size(),
        n <= spec_encode_payload(v).len(),
        spec_encode_payload(b) == spec_encode_payload(v).subrange(0, n as int),
    ensures
        same_box(b, v),
        n == v.spec_payload_size(),
{
    let s = spec_encode_payload(v);
    let sb = spec_encode_payload(b);
    lemma_encode_payload_probe(v);
    lemma_encode_payload_probe(b);
    assert(sb[0] == s[0]);
    assert(b.version == v.version);
    let fixed = spec_fixed_size(v.version);
    assert(spec_read_u16_be(sb, fixed - 2) == spec_read_u16_be(s, fixed - 2));
    assert(b.references@.len() == v.references@.len());
    assert(n == v.spec_payload_size());
    assert(sb =~= s);
    lemma_encode_payload_injective(b, v);
}

} // verus!
