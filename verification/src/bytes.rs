//! Little-endian integers and fixed-width byte fields.

use vstd::prelude::*;

verus! {

/// The two bytes of a value, least significant first.
pub open spec fn u16_bytes(x: u16) -> Seq<u8> {
    seq![(x % 256) as u8, (x / 256) as u8]
}

/// The four bytes of a value, least significant first.
pub open spec fn u32_bytes(x: u32) -> Seq<u8> {
    seq![
        (x % 256) as u8,
        (x / 0x100 % 256) as u8,
        (x / 0x1_0000 % 256) as u8,
        (x / 0x100_0000) as u8,
    ]
}

/// The value whose bytes, least significant first, are given.
pub open spec fn le_u16(s: Seq<u8>) -> u16 {
    (s[0] + 0x100 * s[1]) as u16
}

/// The value whose bytes, least significant first, are given.
pub open spec fn le_u32(s: Seq<u8>) -> u32 {
    (s[0] + 0x100 * s[1] + 0x1_0000 * s[2] + 0x100_0000 * s[3]) as u32
}

/// The first `n` bytes of a sequence, filled up with zeros.
pub open spec fn padded(s: Seq<u8>, n: nat) -> Seq<u8> {
    Seq::new(
        n,
        |i: int|
            if i < s.len() {
                s[i]
            } else {
                0u8
            },
    )
}

/// A flag as a number.
pub open spec fn bit(b: bool) -> int {
    if b {
        1
    } else {
        0
    }
}

/// Splitting a value into bytes and joining them again gives the value, and
/// the other way round.
pub proof fn lemma_u32_bytes_roundtrip(x: u32, s: Seq<u8>)
    requires
        s.len() == 4,
    ensures
        le_u32(u32_bytes(x)) == x,
        u32_bytes(le_u32(s)) == s,
{
    assert(le_u32(u32_bytes(x)) == x) by {
        let q1 = x / 0x100;
        let q2 = x / 0x1_0000;
        let q3 = x / 0x100_0000;
        assert(x == 0x100 * q1 + x % 0x100);
        assert(q1 == 0x100 * q2 + q1 % 0x100);
        assert(q2 == 0x100 * q3 + q2 % 0x100);
    }
    assert(u32_bytes(le_u32(s)) =~= s) by {
        let v = s[0] + 0x100 * s[1] + 0x1_0000 * s[2] + 0x100_0000 * s[3];
        assert(0 <= v <= u32::MAX);
        assert(v / 0x100 == s[1] + 0x100 * s[2] + 0x1_0000 * s[3]);
        assert(v / 0x1_0000 == s[2] + 0x100 * s[3]);
        assert(v / 0x100_0000 == s[3]);
        assert(v % 256 == s[0]);
        assert(v / 0x100 % 256 == s[1]);
        assert(v / 0x1_0000 % 256 == s[2]);
    }
}

/// Splitting a value into bytes and joining them again gives the value, and
/// the other way round.
pub proof fn lemma_u16_bytes_roundtrip(x: u16, s: Seq<u8>)
    requires
        s.len() == 2,
    ensures
        le_u16(u16_bytes(x)) == x,
        u16_bytes(le_u16(s)) == s,
{
    assert(u16_bytes(le_u16(s)) =~= s);
}

pub fn u16_to_le(x: u16) -> (r: [u8; 2])
    ensures
        r@ == u16_bytes(x),
{
    let r: [u8; 2] = [(x % 256) as u8, (x / 256) as u8];
    assert(r@ =~= u16_bytes(x));
    r
}

pub fn u32_to_le(x: u32) -> (r: [u8; 4])
    ensures
        r@ == u32_bytes(x),
{
    let r: [u8; 4] = [
        (x % 256) as u8,
        (x / 0x100 % 256) as u8,
        (x / 0x1_0000 % 256) as u8,
        (x / 0x100_0000) as u8,
    ];
    assert(r@ =~= u32_bytes(x));
    r
}

pub fn u16_from_le(s: &[u8]) -> (r: u16)
    requires
        s@.len() >= 2,
    ensures
        r == le_u16(s@),
{
    s[0] as u16 + 0x100 * s[1] as u16
}

pub fn u32_from_le(s: &[u8]) -> (r: u32)
    requires
        s@.len() >= 4,
    ensures
        r == le_u32(s@),
{
    s[0] as u32 + 0x100 * s[1] as u32 + 0x1_0000 * s[2] as u32 + 0x100_0000 * s[3] as u32
}

/// A sequence with a part of it replaced.
pub open spec fn overwritten(s: Seq<u8>, at: int, part: Seq<u8>) -> Seq<u8> {
    Seq::new(
        s.len(),
        |i: int|
            if at <= i < at + part.len() {
                part[i - at]
            } else {
                s[i]
            },
    )
}

/// Replace the part of a buffer that starts at `at`.
pub fn overwrite<const N: usize>(buf: &mut [u8; N], at: usize, part: &[u8])
    requires
        at + part@.len() <= N,
    ensures
        final(buf)@ == overwritten(old(buf)@, at as int, part@),
{
    let mut i: usize = 0;
    assert(buf@ =~= overwritten(old(buf)@, at as int, part@.take(0)));
    while i < part.len()
        invariant
            i <= part.len(),
            at + part@.len() <= N,
            buf@ == overwritten(old(buf)@, at as int, part@.take(i as int)),
        decreases part.len() - i,
    {
        buf[at + i] = part[i];
        i += 1;
        assert(buf@ =~= overwritten(old(buf)@, at as int, part@.take(i as int)));
    }
    assert(part@.take(i as int) =~= part@);
}

/// Copy a slice into a new vector.
pub fn to_vec(s: &[u8]) -> (r: Vec<u8>)
    ensures
        r@ == s@,
{
    vstd::slice::slice_to_vec(s)
}

/// Byte `i` of a slice, or 0 past its end.
pub fn byte_or_zero(s: &[u8], i: usize) -> (r: u8)
    ensures
        r == (if i < s@.len() {
            s@[i as int]
        } else {
            0
        }),
{
    if i < s.len() {
        s[i]
    } else {
        0
    }
}

} // verus!
