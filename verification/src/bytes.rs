//! Little-endian field encoding: the two widths the record layout uses,
//! as spec functions, with executable writers and readers proved against
//! them.

use vstd::prelude::*;

verus! {

/// The two bytes of `x` in little-endian order.
pub open spec fn le16(x: u16) -> Seq<u8> {
    seq![(x & 0xff) as u8, ((x >> 8) & 0xff) as u8]
}

/// The four bytes of `x` in little-endian order.
pub open spec fn le32(x: u32) -> Seq<u8> {
    seq![
        (x & 0xff) as u8,
        ((x >> 8) & 0xff) as u8,
        ((x >> 16) & 0xff) as u8,
        ((x >> 24) & 0xff) as u8,
    ]
}

/// The 16-bit value whose little-endian bytes stand at `i` in `s`.
pub open spec fn le16_at(s: Seq<u8>, i: int) -> u16 {
    (s[i] as u16) | ((s[i + 1] as u16) << 8)
}

/// The 32-bit value whose little-endian bytes stand at `i` in `s`.
pub open spec fn le32_at(s: Seq<u8>, i: int) -> u32 {
    (s[i] as u32) | ((s[i + 1] as u32) << 8) | ((s[i + 2] as u32) << 16) | ((s[i + 3] as u32)
        << 24)
}

/// A 16-bit field recovered from its two little-endian bytes in place.
pub proof fn lemma_le16_at_bytes(s: Seq<u8>, i: int, x: u16)
    requires
        0 <= i,
        i + 2 <= s.len(),
        s[i] == (x & 0xff) as u8,
        s[i + 1] == ((x >> 8) & 0xff) as u8,
    ensures
        le16_at(s, i) == x,
{
    assert(((((x & 0xff) as u8) as u16) | (((((x >> 8) & 0xff) as u8) as u16) << 8)) == x)
        by (bit_vector);
}

/// A 32-bit field recovered from its four little-endian bytes in place.
pub proof fn lemma_le32_at_bytes(s: Seq<u8>, i: int, x: u32)
    requires
        0 <= i,
        i + 4 <= s.len(),
        s[i] == (x & 0xff) as u8,
        s[i + 1] == ((x >> 8) & 0xff) as u8,
        s[i + 2] == ((x >> 16) & 0xff) as u8,
        s[i + 3] == ((x >> 24) & 0xff) as u8,
    ensures
        le32_at(s, i) == x,
{
    assert(((((x & 0xff) as u8) as u32) | (((((x >> 8) & 0xff) as u8) as u32) << 8) | (((((x >> 16)
        & 0xff) as u8) as u32) << 16) | (((((x >> 24) & 0xff) as u8) as u32) << 24)) == x)
        by (bit_vector);
}

/// Appends the little-endian bytes of a 16-bit field.
pub fn push_le16(out: &mut Vec<u8>, x: u16)
    ensures
        final(out)@ == old(out)@ + le16(x),
{
    out.push((x & 0xff) as u8);
    out.push(((x >> 8) & 0xff) as u8);
    proof {
        assert(out@ =~= old(out)@ + le16(x));
    }
}

/// Appends the little-endian bytes of a 32-bit field.
pub fn push_le32(out: &mut Vec<u8>, x: u32)
    ensures
        final(out)@ == old(out)@ + le32(x),
{
    out.push((x & 0xff) as u8);
    out.push(((x >> 8) & 0xff) as u8);
    out.push(((x >> 16) & 0xff) as u8);
    out.push(((x >> 24) & 0xff) as u8);
    proof {
        assert(out@ =~= old(out)@ + le32(x));
    }
}

/// Appends a run of raw bytes.
pub fn push_bytes(out: &mut Vec<u8>, src: &Vec<u8>)
    ensures
        final(out)@ == old(out)@ + src@,
{
    let n: usize = src.len();
    let mut k: usize = 0;
    while k < n
        invariant
            n == src@.len(),
            k <= n,
            out@ == old(out)@ + src@.subrange(0, k as int),
        decreases n - k,
    {
        out.push(src[k]);
        k = k + 1;
        proof {
            assert(out@ =~= old(out)@ + src@.subrange(0, k as int));
        }
    }
    proof {
        assert(src@.subrange(0, n as int) =~= src@);
    }
}

/// A fresh vector holding bytes `i..j` of `a`.
pub fn copy_range(a: &Vec<u8>, i: usize, j: usize) -> (r: Vec<u8>)
    requires
        i <= j <= a@.len(),
    ensures
        r@ == a@.subrange(i as int, j as int),
{
    vstd::slice::slice_to_vec(vstd::slice::slice_subrange(a.as_slice(), i, j))
}

/// Reads the 16-bit field at `i`.
pub fn read_le16(a: &Vec<u8>, i: usize) -> (r: u16)
    requires
        i + 2 <= a@.len(),
    ensures
        r == le16_at(a@, i as int),
{
    let _n: usize = a.len();
    (a[i] as u16) | ((a[i + 1] as u16) << 8)
}

/// Reads the 32-bit field at `i`.
pub fn read_le32(a: &Vec<u8>, i: usize) -> (r: u32)
    requires
        i + 4 <= a@.len(),
    ensures
        r == le32_at(a@, i as int),
{
    let _n: usize = a.len();
    (a[i] as u32) | ((a[i + 1] as u32) << 8) | ((a[i + 2] as u32) << 16) | ((a[i + 3] as u32)
        << 24)
}

} // verus!
