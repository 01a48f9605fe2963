//! Big-endian byte-order helpers: the wire format stores every multi-byte
//! field big-endian, so the codec reads and writes through these functions.

use vstd::prelude::*;
use vstd::arithmetic::div_mod::{lemma_fundamental_div_mod, lemma_fundamental_div_mod_converse};

verus! {

/// The big-endian bytes of a 16-bit value, most significant first.
pub open spec fn spec_u16_to_be_bytes(x: u16) -> Seq<u8> {
    seq![(x / 0x100) as u8, (x % 0x100) as u8]
}

/// The big-endian bytes of a 32-bit value, most significant first.
pub open spec fn spec_u32_to_be_bytes(x: u32) -> Seq<u8> {
    seq![
        (x / 0x100 / 0x100 / 0x100) as u8,
        ((x / 0x100 / 0x100) % 0x100) as u8,
        ((x / 0x100) % 0x100) as u8,
        (x % 0x100) as u8,
    ]
}

/// The big-endian bytes of a 64-bit value, most significant first.
pub open spec fn spec_u64_to_be_bytes(x: u64) -> Seq<u8> {
    seq![
        (x / 0x100 / 0x100 / 0x100 / 0x100 / 0x100 / 0x100 / 0x100) as u8,
        ((x / 0x100 / 0x100 / 0x100 / 0x100 / 0x100 / 0x100) % 0x100) as u8,
        ((x / 0x100 / 0x100 / 0x100 / 0x100 / 0x100) % 0x100) as u8,
        ((x / 0x100 / 0x100 / 0x100 / 0x100) % 0x100) as u8,
        ((x / 0x100 / 0x100 / 0x100) % 0x100) as u8,
        ((x / 0x100 / 0x100) % 0x100) as u8,
        ((x / 0x100) % 0x100) as u8,
        (x % 0x100) as u8,
    ]
}

/// The value of the 2 big-endian bytes of `s` starting at `i`.
pub open spec fn spec_read_u16_be(s: Seq<u8>, i: int) -> int {
    s[i] * 0x100 + s[i + 1]
}

/// The value of the 4 big-endian bytes of `s` starting at `i`.
pub open spec fn spec_read_u32_be(s: Seq<u8>, i: int) -> int {
    ((s[i] * 0x100 + s[i + 1]) * 0x100 + s[i + 2]) * 0x100 + s[i + 3]
}

/// The value of the 8 big-endian bytes of `s` starting at `i`.
pub open spec fn spec_read_u64_be(s: Seq<u8>, i: int) -> int {
    ((((((s[i] * 0x100 + s[i + 1]) * 0x100 + s[i + 2]) * 0x100 + s[i + 3]) * 0x100 + s[i + 4])
        * 0x100 + s[i + 5]) * 0x100 + s[i + 6]) * 0x100 + s[i + 7]
}

/// Reading back the bytes of a 16-bit value gives the value.
pub proof fn lemma_u16_be_value(x: u16)
    ensures
        spec_read_u16_be(spec_u16_to_be_bytes(x), 0) == x,
{
    lemma_fundamental_div_mod(x as int, 0x100);
}

/// Reading back the bytes of a 32-bit value gives the value.
pub proof fn lemma_u32_be_value(x: u32)
    ensures
        spec_read_u32_be(spec_u32_to_be_bytes(x), 0) == x,
{
    lemma_fundamental_div_mod(x as int, 0x100);
    lemma_fundamental_div_mod(x as int / 0x100, 0x100);
    lemma_fundamental_div_mod(x as int / 0x100 / 0x100, 0x100);
}

/// Reading back the bytes of a 64-bit value gives the value.
pub proof fn lemma_u64_be_value(x: u64)
    ensures
        spec_read_u64_be(spec_u64_to_be_bytes(x), 0) == x,
{
    lemma_fundamental_div_mod(x as int, 0x100);
    lemma_fundamental_div_mod(x as int / 0x100, 0x100);
    lemma_fundamental_div_mod(x as int / 0x100 / 0x100, 0x100);
    lemma_fundamental_div_mod(x as int / 0x100 / 0x100 / 0x100, 0x100);
    lemma_fundamental_div_mod(x as int / 0x100 / 0x100 / 0x100 / 0x100, 0x100);
    lemma_fundamental_div_mod(x as int / 0x100 / 0x100 / 0x100 / 0x100 / 0x100, 0x100);
    lemma_fundamental_div_mod(x as int / 0x100 / 0x100 / 0x100 / 0x100 / 0x100 / 0x100, 0x100);
}

/// The bytes of the value read at `i` are exactly the 2 bytes at `i`.
pub proof fn lemma_u16_be_recompose(s: Seq<u8>, i: int)
    requires
        0 <= i,
        i + 2 <= s.len(),
    ensures
        0 <= spec_read_u16_be(s, i) <= u16::MAX,
        spec_u16_to_be_bytes(spec_read_u16_be(s, i) as u16) =~= s.subrange(i, i + 2),
{
    let v = spec_read_u16_be(s, i);
    lemma_fundamental_div_mod_converse(v, 0x100, s[i] as int, s[i + 1] as int);
}

/// The bytes of the value read at `i` are exactly the 4 bytes at `i`.
pub proof fn lemma_u32_be_recompose(s: Seq<u8>, i: int)
    requires
        0 <= i,
        i + 4 <= s.len(),
    ensures
        0 <= spec_read_u32_be(s, i) <= u32::MAX,
        spec_u32_to_be_bytes(spec_read_u32_be(s, i) as u32) =~= s.subrange(i, i + 4),
{
    let v2 = s[i] * 0x100 + s[i + 1];
    let v1 = v2 * 0x100 + s[i + 2];
    let v = v1 * 0x100 + s[i + 3];
    lemma_fundamental_div_mod_converse(v, 0x100, v1, s[i + 3] as int);
    lemma_fundamental_div_mod_converse(v1, 0x100, v2, s[i + 2] as int);
    lemma_fundamental_div_mod_converse(v2, 0x100, s[i] as int, s[i + 1] as int);
}

/// The bytes of the value read at `i` are exactly the 8 bytes at `i`.
pub proof fn lemma_u64_be_recompose(s: Seq<u8>, i: int)
    requires
        0 <= i,
        i + 8 <= s.len(),
    ensures
        0 <= spec_read_u64_be(s, i) <= u64::MAX,
        spec_u64_to_be_bytes(spec_read_u64_be(s, i) as u64) =~= s.subrange(i, i + 8),
{
    let v6 = s[i] * 0x100 + s[i + 1];
    let v5 = v6 * 0x100 + s[i + 2];
    let v4 = v5 * 0x100 + s[i + 3];
    let v3 = v4 * 0x100 + s[i + 4];
    let v2 = v3 * 0x100 + s[i + 5];
    let v1 = v2 * 0x100 + s[i + 6];
    let v = v1 * 0x100 + s[i + 7];
    lemma_fundamental_div_mod_converse(v, 0x100, v1, s[i + 7] as int);
    lemma_fundamental_div_mod_converse(v1, 0x100, v2, s[i + 6] as int);
    lemma_fundamental_div_mod_converse(v2, 0x100, v3, s[i + 5] as int);
    lemma_fundamental_div_mod_converse(v3, 0x100, v4, s[i + 4] as int);
    lemma_fundamental_div_mod_converse(v4, 0x100, v5, s[i + 3] as int);
    lemma_fundamental_div_mod_converse(v5, 0x100, v6, s[i + 2] as int);
    lemma_fundamental_div_mod_converse(v6, 0x100, s[i] as int, s[i + 1] as int);
}

/// Appends the 2 big-endian bytes of `x` to `out`.
pub fn write_u16_be(out: &mut Vec<u8>, x: u16)
    ensures
        final(out)@ =~= old(out)@ + spec_u16_to_be_bytes(x),
{
    out.push((x / 0x100) as u8);
    out.push((x % 0x100) as u8);
}

/// Appends the 4 big-endian bytes of `x` to `out`.
pub fn write_u32_be(out: &mut Vec<u8>, x: u32)
    ensures
        final(out)@ =~= old(out)@ + spec_u32_to_be_bytes(x),
{
    out.push((x / 0x100 / 0x100 / 0x100) as u8);
    out.push(((x / 0x100 / 0x100) % 0x100) as u8);
    out.push(((x / 0x100) % 0x100) as u8);
    out.push((x % 0x100) as u8);
}

/// Appends the 8 big-endian bytes of `x` to `out`.
pub fn write_u64_be(out: &mut Vec<u8>, x: u64)
    ensures
        final(out)@ =~= old(out)@ + spec_u64_to_be_bytes(x),
{
    out.push((x / 0x100 / 0x100 / 0x100 / 0x100 / 0x100 / 0x100 / 0x100) as u8);
    out.push(((x / 0x100 / 0x100 / 0x100 / 0x100 / 0x100 / 0x100) % 0x100) as u8);
    out.push(((x / 0x100 / 0x100 / 0x100 / 0x100 / 0x100) % 0x100) as u8);
    out.push(((x / 0x100 / 0x100 / 0x100 / 0x100) % 0x100) as u8);
    out.push(((x / 0x100 / 0x100 / 0x100) % 0x100) as u8);
    out.push(((x / 0x100 / 0x100) % 0x100) as u8);
    out.push(((x / 0x100) % 0x100) as u8);
    out.push((x % 0x100) as u8);
}

/// Reads the 16-bit big-endian value at `pos`.
pub fn read_u16_be(data: &[u8], pos: usize) -> (r: u16)
    requires
        pos + 2 <= data.len(),
    ensures
        r == spec_read_u16_be(data@, pos as int),
        spec_u16_to_be_bytes(r) == data@.subrange(pos as int, pos as int + 2),
{
    proof {
        lemma_u16_be_recompose(data@, pos as int);
    }
    (data[pos] as u16) * 0x100 + (data[pos + 1] as u16)
}

/// Reads the 32-bit big-endian value at `pos`.
pub fn read_u32_be(data: &[u8], pos: usize) -> (r: u32)
    requires
        pos + 4 <= data.len(),
    ensures
        r == spec_read_u32_be(data@, pos as int),
        spec_u32_to_be_bytes(r) == data@.subrange(pos as int, pos as int + 4),
{
    proof {
        lemma_u32_be_recompose(data@, pos as int);
    }
    (((data[pos] as u32) * 0x100 + (data[pos + 1] as u32)) * 0x100 + (data[pos + 2] as u32))
        * 0x100 + (data[pos + 3] as u32)
}

/// Reads the 64-bit big-endian value at `pos`.
pub fn read_u64_be(data: &[u8], pos: usize) -> (r: u64)
    requires
        pos + 8 <= data.len(),
    ensures
        r == spec_read_u64_be(data@, pos as int),
        spec_u64_to_be_bytes(r) == data@.subrange(pos as int, pos as int + 8),
{
    proof {
        lemma_u64_be_recompose(data@, pos as int);
    }
    (((((((data[pos] as u64) * 0x100 + (data[pos + 1] as u64)) * 0x100 + (data[pos + 2] as u64))
        * 0x100 + (data[pos + 3] as u64)) * 0x100 + (data[pos + 4] as u64)) * 0x100
        + (data[pos + 5] as u64)) * 0x100 + (data[pos + 6] as u64)) * 0x100
        + (data[pos + 7] as u64)
}

} // verus!
