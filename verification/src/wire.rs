//! Byte-level primitives of the wire format: little-endian integers written
//! into and parsed out of byte sequences, with round-trip lemmas.
//!
//! A parser takes a byte sequence and an offset and yields the parsed value
//! and the offset just past it, or nothing when the bytes do not reach.

use vstd::prelude::*;
use vstd::bytes::*;
use vstd::slice::slice_subrange;

verus! {

// ---------------------------------------------------------------------------
// Spec-level parsers.
// ---------------------------------------------------------------------------

pub open spec fn sp_u8(b: Seq<u8>, i: int) -> Option<(u8, int)> {
    if 0 <= i && i + 1 <= b.len() {
        Some((b[i], i + 1))
    } else {
        None
    }
}

pub open spec fn sp_u16(b: Seq<u8>, i: int) -> Option<(u16, int)> {
    if 0 <= i && i + 2 <= b.len() {
        Some((spec_u16_from_le_bytes(b.subrange(i, i + 2)), i + 2))
    } else {
        None
    }
}

pub open spec fn sp_u32(b: Seq<u8>, i: int) -> Option<(u32, int)> {
    if 0 <= i && i + 4 <= b.len() {
        Some((spec_u32_from_le_bytes(b.subrange(i, i + 4)), i + 4))
    } else {
        None
    }
}

pub open spec fn sp_u64(b: Seq<u8>, i: int) -> Option<(u64, int)> {
    if 0 <= i && i + 8 <= b.len() {
        Some((spec_u64_from_le_bytes(b.subrange(i, i + 8)), i + 8))
    } else {
        None
    }
}

pub open spec fn sp_u128(b: Seq<u8>, i: int) -> Option<(u128, int)> {
    if 0 <= i && i + 16 <= b.len() {
        Some((spec_u128_from_le_bytes(b.subrange(i, i + 16)), i + 16))
    } else {
        None
    }
}

// ---------------------------------------------------------------------------
// Round-trip lemmas: a parser applied where the encoding of a value lies
// yields that value.
// ---------------------------------------------------------------------------

/// Splits knowledge of a two-part encoding at an offset into knowledge of
/// each part at its own offset.
pub proof fn lemma_subrange_split(b: Seq<u8>, i: int, e1: Seq<u8>, e2: Seq<u8>)
    requires
        0 <= i,
        i + e1.len() + e2.len() <= b.len(),
        b.subrange(i, i + e1.len() + e2.len()) == e1 + e2,
    ensures
        b.subrange(i, i + e1.len()) == e1,
        b.subrange(i + e1.len(), i + e1.len() + e2.len()) == e2,
{
    let whole = b.subrange(i, i + e1.len() + e2.len());
    assert forall|j: int| 0 <= j < e1.len() implies b[i + j] == e1[j] by {
        assert(whole[j] == (e1 + e2)[j]);
    }
    assert forall|j: int| 0 <= j < e2.len() implies b[i + e1.len() + j] == e2[j] by {
        assert(whole[e1.len() + j] == (e1 + e2)[e1.len() + j]);
    }
    assert(b.subrange(i, i + e1.len()) =~= e1);
    assert(b.subrange(i + e1.len(), i + e1.len() + e2.len()) =~= e2);
}

pub proof fn lemma_sp_u8_at(b: Seq<u8>, i: int, v: u8)
    requires
        0 <= i,
        i + 1 <= b.len(),
        b.subrange(i, i + 1) == seq![v],
    ensures
        sp_u8(b, i) == Some((v, i + 1)),
{
    assert(b[i] == b.subrange(i, i + 1)[0]);
}

pub proof fn lemma_sp_u16_at(b: Seq<u8>, i: int, v: u16)
    requires
        0 <= i,
        i + 2 <= b.len(),
        b.subrange(i, i + 2) == spec_u16_to_le_bytes(v),
    ensures
        sp_u16(b, i) == Some((v, i + 2)),
{
    lemma_auto_spec_u16_to_from_le_bytes();
    assert(spec_u16_to_le_bytes(v).len() == 2);
    assert(spec_u16_from_le_bytes(spec_u16_to_le_bytes(v)) == v);
}

pub proof fn lemma_sp_u32_at(b: Seq<u8>, i: int, v: u32)
    requires
        0 <= i,
        i + 4 <= b.len(),
        b.subrange(i, i + 4) == spec_u32_to_le_bytes(v),
    ensures
        sp_u32(b, i) == Some((v, i + 4)),
{
    lemma_auto_spec_u32_to_from_le_bytes();
    assert(spec_u32_to_le_bytes(v).len() == 4);
    assert(spec_u32_from_le_bytes(spec_u32_to_le_bytes(v)) == v);
}

pub proof fn lemma_sp_u64_at(b: Seq<u8>, i: int, v: u64)
    requires
        0 <= i,
        i + 8 <= b.len(),
        b.subrange(i, i + 8) == spec_u64_to_le_bytes(v),
    ensures
        sp_u64(b, i) == Some((v, i + 8)),
{
    lemma_auto_spec_u64_to_from_le_bytes();
}

pub proof fn lemma_sp_u128_at(b: Seq<u8>, i: int, v: u128)
    requires
        0 <= i,
        i + 16 <= b.len(),
        b.subrange(i, i + 16) == spec_u128_to_le_bytes(v),
    ensures
        sp_u128(b, i) == Some((v, i + 16)),
{
    lemma_auto_spec_u128_to_from_le_bytes();
    assert(spec_u128_to_le_bytes(v).len() == 16);
    assert(spec_u128_from_le_bytes(spec_u128_to_le_bytes(v)) == v);
}

// ---------------------------------------------------------------------------
// Exec writers: append an encoding to the output buffer.
// ---------------------------------------------------------------------------

/// Appends every byte of `add` to `out`, in order.
pub fn extend_bytes(out: &mut Vec<u8>, add: &Vec<u8>)
    ensures
        final(out)@ == old(out)@ + add@,
{
    let mut k: usize = 0;
    while k < add.len()
        invariant
            k <= add@.len(),
            out@ == old(out)@ + add@.subrange(0, k as int),
        decreases add@.len() - k,
    {
        let byte = add[k];
        out.push(byte);
        assert(old(out)@ + add@.subrange(0, k as int) + seq![byte] =~= old(out)@ + add@.subrange(
            0,
            k as int + 1,
        ));
        k += 1;
    }
    assert(add@.subrange(0, add@.len() as int) =~= add@);
}

pub fn put_u8(out: &mut Vec<u8>, v: u8)
    ensures
        final(out)@ == old(out)@ + seq![v],
{
    out.push(v);
}

pub fn put_u16(out: &mut Vec<u8>, v: u16)
    ensures
        final(out)@ == old(out)@ + spec_u16_to_le_bytes(v),
{
    let bytes = u16_to_le_bytes(v);
    extend_bytes(out, &bytes);
}

pub fn put_u32(out: &mut Vec<u8>, v: u32)
    ensures
        final(out)@ == old(out)@ + spec_u32_to_le_bytes(v),
{
    let bytes = u32_to_le_bytes(v);
    extend_bytes(out, &bytes);
}

pub fn put_u64(out: &mut Vec<u8>, v: u64)
    ensures
        final(out)@ == old(out)@ + spec_u64_to_le_bytes(v),
{
    let bytes = u64_to_le_bytes(v);
    extend_bytes(out, &bytes);
}

pub fn put_u128(out: &mut Vec<u8>, v: u128)
    ensures
        final(out)@ == old(out)@ + spec_u128_to_le_bytes(v),
{
    let bytes = u128_to_le_bytes(v);
    extend_bytes(out, &bytes);
}

// ---------------------------------------------------------------------------
// Exec parsers, each proved equal to its spec-level parser.
// ---------------------------------------------------------------------------

pub fn parse_u8(bytes: &[u8], i: usize) -> (r: Option<(u8, usize)>)
    ensures
        r matches Some((v, j)) ==> sp_u8(bytes@, i as int) == Some((v, j as int)) && i < j
            <= bytes@.len(),
        r is None ==> sp_u8(bytes@, i as int) is None,
{
    if i < bytes.len() {
        Some((bytes[i], i + 1))
    } else {
        None
    }
}

pub fn parse_u16(bytes: &[u8], i: usize) -> (r: Option<(u16, usize)>)
    ensures
        r matches Some((v, j)) ==> sp_u16(bytes@, i as int) == Some((v, j as int)) && i < j
            <= bytes@.len(),
        r is None ==> sp_u16(bytes@, i as int) is None,
{
    if i <= bytes.len() && bytes.len() - i >= 2 {
        let part = slice_subrange(bytes, i, i + 2);
        Some((u16_from_le_bytes(part), i + 2))
    } else {
        None
    }
}

pub fn parse_u32(bytes: &[u8], i: usize) -> (r: Option<(u32, usize)>)
    ensures
        r matches Some((v, j)) ==> sp_u32(bytes@, i as int) == Some((v, j as int)) && i < j
            <= bytes@.len(),
        r is None ==> sp_u32(bytes@, i as int) is None,
{
    if i <= bytes.len() && bytes.len() - i >= 4 {
        let part = slice_subrange(bytes, i, i + 4);
        Some((u32_from_le_bytes(part), i + 4))
    } else {
        None
    }
}

pub fn parse_u64(bytes: &[u8], i: usize) -> (r: Option<(u64, usize)>)
    ensures
        r matches Some((v, j)) ==> sp_u64(bytes@, i as int) == Some((v, j as int)) && i < j
            <= bytes@.len(),
        r is None ==> sp_u64(bytes@, i as int) is None,
{
    if i <= bytes.len() && bytes.len() - i >= 8 {
        let part = slice_subrange(bytes, i, i + 8);
        Some((u64_from_le_bytes(part), i + 8))
    } else {
        None
    }
}

pub fn parse_u128(bytes: &[u8], i: usize) -> (r: Option<(u128, usize)>)
    ensures
        r matches Some((v, j)) ==> sp_u128(bytes@, i as int) == Some((v, j as int)) && i < j
            <= bytes@.len(),
        r is None ==> sp_u128(bytes@, i as int) is None,
{
    if i <= bytes.len() && bytes.len() - i >= 16 {
        let part = slice_subrange(bytes, i, i + 16);
        Some((u128_from_le_bytes(part), i + 16))
    } else {
        None
    }
}

} // verus!
