//! Little-endian integer fields of the cabinet format.
//!
//! All multi-byte integers of the format are little-endian.  The spec
//! functions here give the value of a field as a function of its bytes and
//! the bytes of a field as a function of its value; the executable functions
//! read, append, and patch such fields and are proved against them.

use vstd::prelude::*;

verus! {

/// The value of a 16-bit little-endian field with bytes `b0`, `b1`.
pub open spec fn le16(b0: u8, b1: u8) -> u16 {
    (b0 as u16 + b1 as u16 * 0x100) as u16
}

/// The value of a 32-bit little-endian field with bytes `b0` .. `b3`.
pub open spec fn le32(b0: u8, b1: u8, b2: u8, b3: u8) -> u32 {
    (b0 as u32 + b1 as u32 * 0x100 + b2 as u32 * 0x10000 + b3 as u32 * 0x1000000) as u32
}

/// The two bytes of a 16-bit value, little-endian.
pub open spec fn le16_bytes(v: u16) -> Seq<u8> {
    seq![(v % 0x100) as u8, (v / 0x100) as u8]
}

/// The four bytes of a 32-bit value, little-endian.
pub open spec fn le32_bytes(v: u32) -> Seq<u8> {
    seq![
        (v % 0x100) as u8,
        (v / 0x100 % 0x100) as u8,
        (v / 0x10000 % 0x100) as u8,
        (v / 0x1000000) as u8,
    ]
}

/// The 16-bit value at offset `off` of `data`, little-endian.
pub open spec fn le16_at(data: Seq<u8>, off: int) -> u16 {
    le16(data[off], data[off + 1])
}

/// The 32-bit value at offset `off` of `data`, little-endian.
pub open spec fn le32_at(data: Seq<u8>, off: int) -> u32 {
    le32(data[off], data[off + 1], data[off + 2], data[off + 3])
}

/// For `0 <= low < base` and `0 <= high`: dividing `high * base + low` by
/// `base` gives back `high`, and the remainder gives back `low`.
pub proof fn lemma_split_at_base(high: int, low: int, base: int)
    requires
        0 <= low < base,
        0 <= high,
    ensures
        (high * base + low) / base == high,
        (high * base + low) % base == low,
{
    assert((high * base + low) / base == high && (high * base + low) % base == low)
        by (nonlinear_arith)
        requires 0 <= low < base, 0 <= high;
}

/// Reading back the two bytes of a value gives the value.
pub proof fn lemma_le16_roundtrip(v: u16)
    ensures
        le16(le16_bytes(v)[0], le16_bytes(v)[1]) == v,
{
}

/// Reading back the four bytes of a value gives the value.
pub proof fn lemma_le32_roundtrip(v: u32)
    ensures
        le32(le32_bytes(v)[0], le32_bytes(v)[1], le32_bytes(v)[2], le32_bytes(v)[3]) == v,
{
}

pub fn get_u8(data: &Vec<u8>, off: usize) -> (r: u8)
    requires
        off < data@.len(),
    ensures
        r == data@[off as int],
{
    data[off]
}

pub fn get_u16_le(data: &Vec<u8>, off: usize) -> (r: u16)
    requires
        off + 2 <= data@.len(),
    ensures
        r == le16_at(data@, off as int),
{
    let n = data.len();
    data[off] as u16 + data[off + 1] as u16 * 0x100
}

pub fn get_u32_le(data: &Vec<u8>, off: usize) -> (r: u32)
    requires
        off + 4 <= data@.len(),
    ensures
        r == le32_at(data@, off as int),
{
    let n = data.len();
    data[off] as u32 + data[off + 1] as u32 * 0x100 + data[off + 2] as u32 * 0x10000 + data[off
        + 3] as u32 * 0x1000000
}

pub fn push_u16_le(out: &mut Vec<u8>, v: u16)
    ensures
        final(out)@ == old(out)@ + le16_bytes(v),
{
    out.push((v % 0x100) as u8);
    out.push((v / 0x100) as u8);
    assert(final(out)@ == old(out)@ + le16_bytes(v));
}

pub fn push_u32_le(out: &mut Vec<u8>, v: u32)
    ensures
        final(out)@ == old(out)@ + le32_bytes(v),
{
    out.push((v % 0x100) as u8);
    out.push((v / 0x100 % 0x100) as u8);
    out.push((v / 0x10000 % 0x100) as u8);
    out.push((v / 0x1000000) as u8);
    assert(final(out)@ == old(out)@ + le32_bytes(v));
}

/// Overwrites the two bytes at `off` with `v`, little-endian; all other
/// bytes stay.
pub fn set_u16_le(out: &mut Vec<u8>, off: usize, v: u16)
    requires
        off + 2 <= old(out)@.len(),
    ensures
        final(out)@.len() == old(out)@.len(),
        le16_at(final(out)@, off as int) == v,
        forall|i: int| 0 <= i < old(out)@.len() && !(off <= i < off + 2) ==> final(out)@[i]
            == old(out)@[i],
        final(out)@ == old(out)@.update(off as int, le16_bytes(v)[0]).update(
            off + 1,
            le16_bytes(v)[1],
        ),
{
    let n = out.len();
    let b0 = vstd::std_specs::vec::vec_index_mut(out, off);
    *b0 = (v % 0x100) as u8;
    let b1 = vstd::std_specs::vec::vec_index_mut(out, off + 1);
    *b1 = (v / 0x100) as u8;
}

/// Overwrites the four bytes at `off` with `v`, little-endian; all other
/// bytes stay.
pub fn set_u32_le(out: &mut Vec<u8>, off: usize, v: u32)
    requires
        off + 4 <= old(out)@.len(),
    ensures
        final(out)@.len() == old(out)@.len(),
        le32_at(final(out)@, off as int) == v,
        forall|i: int| 0 <= i < old(out)@.len() && !(off <= i < off + 4) ==> final(out)@[i]
            == old(out)@[i],
        final(out)@ == old(out)@.update(off as int, le32_bytes(v)[0]).update(
            off + 1,
            le32_bytes(v)[1],
        ).update(off + 2, le32_bytes(v)[2]).update(off + 3, le32_bytes(v)[3]),
{
    let n = out.len();
    let b0 = vstd::std_specs::vec::vec_index_mut(out, off);
    *b0 = (v % 0x100) as u8;
    let b1 = vstd::std_specs::vec::vec_index_mut(out, off + 1);
    *b1 = (v / 0x100 % 0x100) as u8;
    let b2 = vstd::std_specs::vec::vec_index_mut(out, off + 2);
    *b2 = (v / 0x10000 % 0x100) as u8;
    let b3 = vstd::std_specs::vec::vec_index_mut(out, off + 3);
    *b3 = (v / 0x1000000) as u8;
}

/// Copies `data[start .. start + len]` into a fresh vector.
pub fn copy_range(data: &Vec<u8>, start: usize, len: usize) -> (r: Vec<u8>)
    requires
        start + len <= data@.len(),
    ensures
        r@ == data@.subrange(start as int, start + len),
{
    let n = data.len();
    let mut r: Vec<u8> = Vec::new();
    let mut i: usize = 0;
    while i < len
        invariant
            start + len <= n == data@.len(),
            i <= len,
            r@ == data@.subrange(start as int, start + i),
        decreases len - i,
    {
        r.push(data[start + i]);
        assert(r@ == data@.subrange(start as int, start + i + 1));
        i = i + 1;
    }
    r
}

} // verus!
