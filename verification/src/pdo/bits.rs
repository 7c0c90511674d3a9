//! Bytes as bits, least significant bit first.

use crate::bytes::bit;
use vstd::prelude::*;

verus! {

/// The value of bit `k` of a byte.
pub open spec fn weight(k: int) -> u8 {
    if k == 0 {
        1
    } else if k == 1 {
        2
    } else if k == 2 {
        4
    } else if k == 3 {
        8
    } else if k == 4 {
        16
    } else if k == 5 {
        32
    } else if k == 6 {
        64
    } else {
        128
    }
}

/// Bit `k` of a byte.
pub open spec fn bit_of(byte: u8, k: int) -> bool {
    byte / weight(k) % 2 == 1
}

/// The bits of a sequence of bytes.
pub open spec fn bits_of(bytes: Seq<u8>) -> Seq<bool> {
    Seq::new(8 * bytes.len(), |i: int| bit_of(bytes[i / 8], i % 8))
}

/// What bit `i` of a sequence adds to a byte in which it is bit `k`. There is
/// nothing beyond the end of the sequence.
pub open spec fn share(bits: Seq<bool>, i: int, k: int) -> int {
    if i < bits.len() && bits[i] {
        weight(k) as int
    } else {
        0
    }
}

/// The byte made of the eight bits that start at `at`.
pub open spec fn byte_at(bits: Seq<bool>, at: int) -> u8 {
    (share(bits, at, 0) + share(bits, at + 1, 1) + share(bits, at + 2, 2) + share(bits, at + 3, 3)
        + share(bits, at + 4, 4) + share(bits, at + 5, 5) + share(bits, at + 6, 6) + share(
        bits,
        at + 7,
        7,
    )) as u8
}

/// The number of bytes that hold the given number of bits.
pub open spec fn bytes_for(bits: nat) -> nat {
    (bits + 7) / 8
}

/// The bytes that hold a sequence of bits, the last one filled up with zeros.
pub open spec fn bytes_of(bits: Seq<bool>) -> Seq<u8> {
    Seq::new(bytes_for(bits.len()), |i: int| byte_at(bits, 8 * i))
}

/// A byte is the sum of its bits.
proof fn lemma_byte_is_sum_of_bits(b: u8)
    ensures
        b == bit(bit_of(b, 0)) + 2 * bit(bit_of(b, 1)) + 4 * bit(bit_of(b, 2)) + 8 * bit(
            bit_of(b, 3),
        ) + 16 * bit(bit_of(b, 4)) + 32 * bit(bit_of(b, 5)) + 64 * bit(bit_of(b, 6)) + 128 * bit(
            bit_of(b, 7),
        ),
{
    assert(b / 4 == b / 2 / 2);
    assert(b / 8 == b / 4 / 2);
    assert(b / 16 == b / 8 / 2);
    assert(b / 32 == b / 16 / 2);
    assert(b / 64 == b / 32 / 2);
    assert(b / 128 == b / 64 / 2);
}

/// The bits of a sum of weighted bits are those bits.
proof fn lemma_bits_of_sum(bits: Seq<bool>, at: int, k: int)
    requires
        0 <= k < 8,
    ensures
        bit_of(byte_at(bits, at), k) == (at + k < bits.len() && bits[at + k]),
{
    let b = byte_at(bits, at);
    if k == 0 {
        assert(b / 1 == b);
    } else if k == 1 {
        assert(b / 2 % 2 == 1 <==> share(bits, at + 1, 1) == 2);
    } else if k == 2 {
        assert(b / 4 % 2 == 1 <==> share(bits, at + 2, 2) == 4);
    } else if k == 3 {
        assert(b / 8 % 2 == 1 <==> share(bits, at + 3, 3) == 8);
    } else if k == 4 {
        assert(b / 16 % 2 == 1 <==> share(bits, at + 4, 4) == 16);
    } else if k == 5 {
        assert(b / 32 % 2 == 1 <==> share(bits, at + 5, 5) == 32);
    } else if k == 6 {
        assert(b / 64 % 2 == 1 <==> share(bits, at + 6, 6) == 64);
    } else {
        assert(b / 128 % 2 == 1 <==> share(bits, at + 7, 7) == 128);
    }
}

/// Packing the bits of bytes gives back the bytes.
pub proof fn lemma_unpack_then_pack(bytes: Seq<u8>)
    ensures
        bytes_of(bits_of(bytes)) == bytes,
{
    let bits = bits_of(bytes);
    assert forall|i: int| 0 <= i < bytes.len() implies byte_at(bits, 8 * i) == bytes[i] by {
        lemma_byte_is_sum_of_bits(bytes[i]);
        assert forall|k: int| 0 <= k < 8 implies #[trigger] bits[8 * i + k] == bit_of(
            bytes[i],
            k,
        ) by {
            assert((8 * i + k) / 8 == i);
            assert((8 * i + k) % 8 == k);
        }
        assert(bits[8 * i + 0] == bit_of(bytes[i], 0));
        assert(bits[8 * i + 1] == bit_of(bytes[i], 1));
        assert(bits[8 * i + 2] == bit_of(bytes[i], 2));
        assert(bits[8 * i + 3] == bit_of(bytes[i], 3));
        assert(bits[8 * i + 4] == bit_of(bytes[i], 4));
        assert(bits[8 * i + 5] == bit_of(bytes[i], 5));
        assert(bits[8 * i + 6] == bit_of(bytes[i], 6));
        assert(bits[8 * i + 7] == bit_of(bytes[i], 7));
    }
    assert(bytes_of(bits) =~= bytes);
}

/// The bits of packed bits are those bits, followed by zeros.
pub proof fn lemma_pack_then_unpack(bits: Seq<bool>)
    ensures
        bits_of(bytes_of(bits)).len() >= bits.len(),
        bits_of(bytes_of(bits)).take(bits.len() as int) == bits,
        forall|i: int|
            bits.len() <= i < bits_of(bytes_of(bits)).len() ==> !#[trigger] bits_of(
                bytes_of(bits),
            )[i],
{
    let all = bits_of(bytes_of(bits));
    assert forall|i: int| 0 <= i < all.len() implies #[trigger] all[i] == (i < bits.len()
        && bits[i]) by {
        lemma_bits_of_sum(bits, 8 * (i / 8), i % 8);
        assert(8 * (i / 8) + i % 8 == i);
    }
    assert(all.take(bits.len() as int) =~= bits);
}

/// Bit `k` of a byte.
pub fn get_bit(byte: u8, k: usize) -> (r: bool)
    requires
        k < 8,
    ensures
        r == bit_of(byte, k as int),
{
    byte / bit_weight(k) % 2 == 1
}

fn bit_weight(k: usize) -> (r: u8)
    requires
        k < 8,
    ensures
        r == weight(k as int),
        r != 0,
{
    if k == 0 {
        1
    } else if k == 1 {
        2
    } else if k == 2 {
        4
    } else if k == 3 {
        8
    } else if k == 4 {
        16
    } else if k == 5 {
        32
    } else if k == 6 {
        64
    } else {
        128
    }
}

/// Append the first `count` bits of `bytes` to `bits`.
pub fn append_bits(bits: &mut Vec<bool>, bytes: &[u8], count: usize)
    requires
        count <= 8 * bytes@.len(),
    ensures
        final(bits)@ == old(bits)@ + bits_of(bytes@).take(count as int),
{
    let ghost before = bits@;
    let mut i: usize = 0;
    assert(bits@ =~= before + bits_of(bytes@).take(0));
    while i < count
        invariant
            i <= count <= 8 * bytes@.len(),
            bits@ == before + bits_of(bytes@).take(i as int),
        decreases count - i,
    {
        bits.push(get_bit(bytes[i / 8], i % 8));
        i += 1;
        assert(bits@ =~= before + bits_of(bytes@).take(i as int));
    }
}

fn bit_share(bits: &Vec<bool>, i: usize, k: usize) -> (r: u8)
    requires
        k < 8,
    ensures
        r == share(bits@, i as int, k as int),
{
    if i < bits.len() && bits[i] {
        bit_weight(k)
    } else {
        0
    }
}

/// Pack bits into bytes.
pub fn pack_bits(bits: &Vec<bool>) -> (r: Vec<u8>)
    requires
        bits@.len() <= 0x1_0000,
    ensures
        r@ == bytes_of(bits@),
{
    let mut r: Vec<u8> = Vec::new();
    let n: usize = (bits.len() + 7) / 8;
    while r.len() < n
        invariant
            n == bytes_for(bits@.len()),
            bits@.len() <= 0x1_0000,
            r@.len() <= n,
            r@ == bytes_of(bits@).take(r@.len() as int),
        decreases n - r@.len(),
    {
        let at: usize = 8 * r.len();
        let byte: u8 = bit_share(bits, at, 0) + bit_share(bits, at + 1, 1) + bit_share(
            bits,
            at + 2,
            2,
        ) + bit_share(bits, at + 3, 3) + bit_share(bits, at + 4, 4) + bit_share(bits, at + 5, 5)
            + bit_share(bits, at + 6, 6) + bit_share(bits, at + 7, 7);
        r.push(byte);
        assert(r@ =~= bytes_of(bits@).take(r@.len() as int));
    }
    assert(r@ =~= bytes_of(bits@));
    r
}

/// Two to the power of a number.
pub open spec fn doubled(n: nat) -> int
    decreases n,
{
    if n == 0 {
        1
    } else {
        2 * doubled((n - 1) as nat)
    }
}

/// A value of a few bits comes in the low bits of a byte, and the next one above
/// it: bits are counted from the least significant one.
#[verifier::spinoff_prover]
pub proof fn lemma_low_bits_come_first(x: u8, y: u8, n: nat)
    requires
        n <= 8,
    ensures
        bytes_of(bits_of(seq![x]).take(n as int) + bits_of(seq![y]).take(8 - n)).len() == 1,
        bytes_of(bits_of(seq![x]).take(n as int) + bits_of(seq![y]).take(8 - n))[0] == x as int
            % doubled(n) + doubled(n) * (y as int % doubled((8 - n) as nat)),
{
    let a = bits_of(seq![x]).take(n as int);
    let b = bits_of(seq![y]).take(8 - n);
    let all = a + b;
    assert(all.len() == 8);
    assert forall|i: int| 0 <= i < 8 implies #[trigger] all[i] == (if i < n {
        bit_of(x, i)
    } else {
        bit_of(y, i - n)
    }) by {}
    assert(bytes_of(all)[0] == byte_at(all, 0));
    lemma_low_part(x, n);
    lemma_low_part(y, (8 - n) as nat);
    reveal_with_fuel(doubled, 9);
    reveal_with_fuel(low_sum, 9);
    let b0: int = bit(all[0]) as int;
    assert(share(all, 0, 0) == 1 * b0);
    let b1: int = bit(all[1]) as int;
    assert(share(all, 1, 1) == 2 * b1);
    let b2: int = bit(all[2]) as int;
    assert(share(all, 2, 2) == 4 * b2);
    let b3: int = bit(all[3]) as int;
    assert(share(all, 3, 3) == 8 * b3);
    let b4: int = bit(all[4]) as int;
    assert(share(all, 4, 4) == 16 * b4);
    let b5: int = bit(all[5]) as int;
    assert(share(all, 5, 5) == 32 * b5);
    let b6: int = bit(all[6]) as int;
    assert(share(all, 6, 6) == 64 * b6);
    let b7: int = bit(all[7]) as int;
    assert(share(all, 7, 7) == 128 * b7);
    assert(byte_at(all, 0) == b0 + 2 * b1 + 4 * b2 + 8 * b3 + 16 * b4 + 32 * b5 + 64 * b6 + 128 * b7);
    let p = doubled(n);
    let z = low_sum(y, (8 - n) as nat);
    if n == 0 {
        assert(low_sum(x, 0) == 0);
        assert(z == b0 + 2 * b1 + 4 * b2 + 8 * b3 + 16 * b4 + 32 * b5 + 64 * b6 + 128 * b7);
        assert(p * z == z);
    } else if n == 1 {
        assert(low_sum(x, 1) == b0);
        assert(z == b1 + 2 * b2 + 4 * b3 + 8 * b4 + 16 * b5 + 32 * b6 + 64 * b7);
        assert(p * z == 2 * z);
    } else if n == 2 {
        assert(low_sum(x, 2) == b0 + 2 * b1);
        assert(z == b2 + 2 * b3 + 4 * b4 + 8 * b5 + 16 * b6 + 32 * b7);
        assert(p * z == 4 * z);
    } else if n == 3 {
        assert(low_sum(x, 3) == b0 + 2 * b1 + 4 * b2);
        assert(z == b3 + 2 * b4 + 4 * b5 + 8 * b6 + 16 * b7);
        assert(p * z == 8 * z);
    } else if n == 4 {
        assert(low_sum(x, 4) == b0 + 2 * b1 + 4 * b2 + 8 * b3);
        assert(z == b4 + 2 * b5 + 4 * b6 + 8 * b7);
        assert(p * z == 16 * z);
    } else if n == 5 {
        assert(low_sum(x, 5) == b0 + 2 * b1 + 4 * b2 + 8 * b3 + 16 * b4);
        assert(z == b5 + 2 * b6 + 4 * b7);
        assert(p * z == 32 * z);
    } else if n == 6 {
        assert(low_sum(x, 6) == b0 + 2 * b1 + 4 * b2 + 8 * b3 + 16 * b4 + 32 * b5);
        assert(z == b6 + 2 * b7);
        assert(p * z == 64 * z);
    } else if n == 7 {
        assert(low_sum(x, 7) == b0 + 2 * b1 + 4 * b2 + 8 * b3 + 16 * b4 + 32 * b5 + 64 * b6);
        assert(z == b7);
        assert(p * z == 128 * z);
    } else {
        assert(low_sum(x, 8) == b0 + 2 * b1 + 4 * b2 + 8 * b3 + 16 * b4 + 32 * b5 + 64 * b6 + 128 * b7);
        assert(z == 0);
        assert(p * z == 0);
    }
}

/// The low bits of a byte are its remainder.
proof fn lemma_low_part(b: u8, n: nat)
    requires
        n <= 8,
    ensures
        b as int % doubled(n) == low_sum(b, n),
{
    reveal_with_fuel(doubled, 9);
    reveal_with_fuel(low_sum, 9);
    lemma_byte_is_sum_of_bits(b);
    if n == 0 {
        assert(b as int % 1 == 0);
    } else if n == 1 {
        assert(b as int % 2 == low_sum(b, 1));
    } else if n == 2 {
        assert(b as int % 4 == low_sum(b, 2));
    } else if n == 3 {
        assert(b as int % 8 == low_sum(b, 3));
    } else if n == 4 {
        assert(b as int % 16 == low_sum(b, 4));
    } else if n == 5 {
        assert(b as int % 32 == low_sum(b, 5));
    } else if n == 6 {
        assert(b as int % 64 == low_sum(b, 6));
    } else if n == 7 {
        assert(b as int % 128 == low_sum(b, 7));
    } else {
        assert(b as int % 256 == low_sum(b, 8));
    }
}

/// The sum of the low bits of a byte.
spec fn low_sum(b: u8, n: nat) -> int
    decreases n,
{
    if n == 0 {
        0
    } else {
        low_sum(b, (n - 1) as nat) + doubled((n - 1) as nat) * bit(bit_of(b, n - 1))
    }
}

} // verus!
