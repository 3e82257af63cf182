//! Small verified helpers over byte buffers: zero-filled buffers, copies,
//! comparisons, and the 4-byte little-endian keys of array maps.

use vstd::prelude::*;

verus! {

/// Every byte of `s` is zero.
pub open spec fn all_zero(s: Seq<u8>) -> bool {
    forall|i: int| 0 <= i < s.len() ==> s[i] == 0
}

/// A fresh buffer of `n` zero bytes.
pub fn zeroed(n: usize) -> (r: Vec<u8>)
    ensures
        r@.len() == n,
        all_zero(r@),
{
    let mut v: Vec<u8> = Vec::new();
    let mut i: usize = 0;
    while i < n
        invariant
            i <= n,
            v@.len() == i,
            all_zero(v@),
        decreases n - i,
    {
        v.push(0u8);
        i = i + 1;
    }
    v
}

/// An owned copy of a byte buffer.
pub fn copy_bytes(src: &Vec<u8>) -> (r: Vec<u8>)
    ensures
        r@ == src@,
{
    let mut v: Vec<u8> = Vec::new();
    let mut i: usize = 0;
    while i < src.len()
        invariant
            i <= src@.len(),
            v@ == src@.subrange(0, i as int),
        decreases src@.len() - i,
    {
        v.push(src[i]);
        assert(v@ == src@.subrange(0, i + 1 as int));
        i = i + 1;
    }
    assert(src@.subrange(0, src@.len() as int) == src@);
    v
}

/// Whether two byte buffers hold the same bytes.
pub fn bytes_equal(a: &Vec<u8>, b: &Vec<u8>) -> (r: bool)
    ensures
        r == (a@ == b@),
{
    if a.len() != b.len() {
        assert(a@ != b@);
        return false;
    }
    let mut i: usize = 0;
    while i < a.len()
        invariant
            i <= a@.len(),
            a@.len() == b@.len(),
            forall|j: int| 0 <= j < i ==> a@[j] == b@[j],
        decreases a@.len() - i,
    {
        if a[i] != b[i] {
            return false;
        }
        i = i + 1;
    }
    assert(a@ =~= b@);
    true
}

/// The numeric index a 4-byte little-endian key denotes.
pub open spec fn le32_index(s: Seq<u8>) -> int
    recommends
        s.len() == 4,
{
    s[0] + s[1] * 0x100 + s[2] * 0x10000 + s[3] * 0x1000000
}

/// Reads a 4-byte little-endian key as its numeric index.
pub fn read_le32(key: &Vec<u8>) -> (r: u32)
    requires
        key@.len() == 4,
    ensures
        r == le32_index(key@),
{
    let b0 = key[0] as u32;
    let b1 = key[1] as u32;
    let b2 = key[2] as u32;
    let b3 = key[3] as u32;
    b0 + b1 * 0x100 + b2 * 0x10000 + b3 * 0x1000000
}

/// The 4-byte little-endian key denoting the numeric index `x`.
pub open spec fn le32_encode(x: int) -> Seq<u8> {
    seq![
        (x % 0x100) as u8,
        ((x / 0x100) % 0x100) as u8,
        ((x / 0x100 / 0x100) % 0x100) as u8,
        ((x / 0x100 / 0x100 / 0x100) % 0x100) as u8,
    ]
}

/// Encoding and reading are inverse: the 4-byte little-endian key of an
/// in-range index denotes exactly that index.
pub proof fn lemma_le32_roundtrip(x: int)
    requires
        0 <= x < 0x1_0000_0000,
    ensures
        le32_encode(x).len() == 4,
        le32_index(le32_encode(x)) == x,
{
    let b0 = x % 0x100;
    let q1 = x / 0x100;
    let b1 = q1 % 0x100;
    let q2 = q1 / 0x100;
    let b2 = q2 % 0x100;
    let q3 = q2 / 0x100;
    assert(0 <= q3 < 0x100) by (nonlinear_arith)
        requires
            q3 == x / 0x100 / 0x100 / 0x100,
            0 <= x < 0x1_0000_0000,
    ;
    assert(le32_encode(x)[3] == (q3 % 0x100) as u8);
    assert(q3 % 0x100 == q3);
    assert(b0 + b1 * 0x100 + b2 * 0x10000 + q3 * 0x1000000 == x) by (nonlinear_arith)
        requires
            b0 == x % 0x100,
            q1 == x / 0x100,
            b1 == q1 % 0x100,
            q2 == q1 / 0x100,
            b2 == q2 % 0x100,
            q3 == q2 / 0x100,
            0 <= q3 < 0x100,
            0 <= x < 0x1_0000_0000,
    ;
}

/// Encodes a numeric index as a 4-byte little-endian key.
pub fn write_le32(x: u32) -> (r: Vec<u8>)
    ensures
        r@.len() == 4,
        r@ == le32_encode(x as int),
        le32_index(r@) == x,
{
    let b0 = (x % 0x100) as u8;
    let q1 = x / 0x100;
    let b1 = (q1 % 0x100) as u8;
    let q2 = q1 / 0x100;
    let b2 = (q2 % 0x100) as u8;
    let q3 = q2 / 0x100;
    let b3 = q3 as u8;
    let mut v: Vec<u8> = Vec::new();
    v.push(b0);
    v.push(b1);
    v.push(b2);
    v.push(b3);
    proof {
        assert(q3 < 0x100) by (nonlinear_arith)
            requires
                q3 == (x / 0x100u32 / 0x100u32 / 0x100u32),
                x <= u32::MAX,
        ;
        assert(b0 + b1 * 0x100 + b2 * 0x10000 + b3 * 0x1000000 == x) by (nonlinear_arith)
            requires
                b0 == x % 0x100u32,
                q1 == x / 0x100u32,
                b1 == q1 % 0x100u32,
                q2 == q1 / 0x100u32,
                b2 == q2 % 0x100u32,
                q3 == q2 / 0x100u32,
                b3 == q3 as u8,
                q3 < 0x100,
        ;
        assert(v@ =~= seq![b0, b1, b2, b3]);
        assert(v@ =~= le32_encode(x as int));
    }
    v
}

} // verus!
