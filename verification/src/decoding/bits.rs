//! The mathematical model of a byte string as a string of bits.
//!
//! Bit `i` of a byte string is bit `i % 8` of byte `i / 8`, counted from the
//! least significant bit. Both bit readers state what they return in terms of
//! [`bits_value`].

use vstd::prelude::*;
use vstd::arithmetic::power2::{
    pow2, lemma_pow2_pos, lemma_pow2_strictly_increases, lemma_pow2_unfold, lemma2_to64,
};
use vstd::bits::{lemma_u64_shl_is_mul, lemma_u8_shr_is_div};

verus! {

/// Bit `i` of `data`, as 0 or 1.
pub open spec fn bit_at(data: Seq<u8>, i: int) -> nat
    recommends
        0 <= i < 8 * data.len(),
{
    ((data[i / 8] as nat) / pow2((i % 8) as nat)) % 2
}

/// The number whose binary digits are the bits `start .. start + n` of
/// `data`, bit `start` being the least significant digit.
pub open spec fn bits_value(data: Seq<u8>, start: int, n: nat) -> nat
    recommends
        0 <= start,
        start + n <= 8 * data.len(),
    decreases n,
{
    if n == 0 {
        0
    } else {
        bits_value(data, start, (n - 1) as nat) + bit_at(data, start + n - 1) * pow2((n - 1) as nat)
    }
}

/// A number spelled by `n` bits is below `2^n`.
pub proof fn lemma_bits_value_bound(data: Seq<u8>, start: int, n: nat)
    ensures
        bits_value(data, start, n) < pow2(n),
    decreases n,
{
    if n == 0 {
        lemma2_to64();
    } else {
        lemma_bits_value_bound(data, start, (n - 1) as nat);
        lemma_pow2_unfold(n);
        let b = bit_at(data, start + n - 1);
        let p = pow2((n - 1) as nat);
        assert(b * p <= p) by (nonlinear_arith)
            requires
                b <= 1,
                p >= 0,
        ;
    }
}

/// Reading `a + b` bits is reading `a` bits and then `b` more, the later
/// ones being the more significant.
pub proof fn lemma_bits_value_split(data: Seq<u8>, start: int, a: nat, b: nat)
    ensures
        bits_value(data, start, a + b) == bits_value(data, start, a) + pow2(a) * bits_value(
            data,
            start + a,
            b,
        ),
    decreases b,
{
    if b == 0 {
        assert(pow2(a) * 0 == 0) by (nonlinear_arith);
    } else {
        lemma_bits_value_split(data, start, a, (b - 1) as nat);
        let hi = bit_at(data, start + a + b - 1);
        let rest = bits_value(data, start + a, (b - 1) as nat);
        vstd::arithmetic::power2::lemma_pow2_adds(a, (b - 1) as nat);
        let pa = pow2(a);
        let pb = pow2((b - 1) as nat);
        assert(pa * (rest + hi * pb) == pa * rest + hi * (pa * pb)) by (nonlinear_arith);
    }
}

/// Only the bits that are read matter: two byte strings that agree on the
/// bytes under `start .. start + n` spell the same number there.
pub proof fn lemma_bits_value_agree(d1: Seq<u8>, d2: Seq<u8>, start: int, n: nat)
    requires
        0 <= start,
        forall|i: int| start / 8 <= i && i * 8 < start + n ==> d1[i] == d2[i],
    ensures
        bits_value(d1, start, n) == bits_value(d2, start, n),
    decreases n,
{
    if n > 0 {
        lemma_bits_value_agree(d1, d2, start, (n - 1) as nat);
        let i = start + n - 1;
        assert(start / 8 <= i / 8 && (i / 8) * 8 < start + n);
    }
}

/// Whether `part` is the start of `whole`.
pub open spec fn spec_is_prefix(part: Seq<u8>, whole: Seq<u8>) -> bool {
    part.len() <= whole.len() && part == whole.subrange(0, part.len() as int)
}

/// The bits of the start of a byte string are the bits of the string.
pub proof fn lemma_bits_of_prefix(part: Seq<u8>, whole: Seq<u8>, start: int, n: nat)
    requires
        spec_is_prefix(part, whole),
        0 <= start,
        start + n <= 8 * part.len(),
    ensures
        bits_value(part, start, n) == bits_value(whole, start, n),
{
    assert forall|i: int| start / 8 <= i && i * 8 < start + n implies part[i] == whole[i] by {
        assert(part[i] == whole.subrange(0, part.len() as int)[i]);
    }
    lemma_bits_value_agree(part, whole, start, n);
}

/// A byte string is a prefix of itself.
pub proof fn lemma_prefix_of_itself(whole: Seq<u8>)
    ensures
        spec_is_prefix(whole, whole),
{
    assert(whole =~= whole.subrange(0, whole.len() as int));
}

/// The rest of a prefix is a prefix of the rest.
pub proof fn lemma_rest_of_prefix(part: Seq<u8>, whole: Seq<u8>, at: int)
    requires
        spec_is_prefix(part, whole),
        0 <= at <= part.len(),
    ensures
        spec_is_prefix(
            part.subrange(at, part.len() as int),
            whole.subrange(at, whole.len() as int),
        ),
{
    let part_rest = part.subrange(at, part.len() as int);
    let whole_rest = whole.subrange(at, whole.len() as int);
    assert(part_rest =~= whole_rest.subrange(0, part_rest.len() as int));
}

/// Unfolds [`bits_value`] once: the last bit read is the most significant.
pub proof fn lemma_bits_value_unfold(data: Seq<u8>, start: int, n: nat)
    requires
        n > 0,
    ensures
        bits_value(data, start, n) == bits_value(data, start, (n - 1) as nat) + bit_at(
            data,
            start + n - 1,
        ) * pow2((n - 1) as nat),
{
}

/// The bits `offset .. offset + n` of byte `index`, when they all lie in
/// that byte, are the byte divided by `2^offset`, modulo `2^n`.
pub proof fn lemma_bits_in_byte(data: Seq<u8>, index: int, offset: nat, n: nat)
    requires
        0 <= index < data.len(),
        offset + n <= 8,
    ensures
        bits_value(data, 8 * index + offset, n) == ((data[index] as nat) / pow2(offset)) % pow2(n),
    decreases n,
{
    let b = data[index] as nat;
    let start = 8 * index + offset;
    lemma2_to64();
    if n == 0 {
    } else {
        lemma_bits_in_byte(data, index, offset, (n - 1) as nat);
        let i = start + n - 1;
        assert(i / 8 == index && i % 8 == offset + n - 1);
        let q = b / pow2(offset);
        let top = (offset + n - 1) as nat;
        // the bit at `top` of b is bit `n - 1` of q
        assert(b / pow2(top) == q / pow2((n - 1) as nat)) by {
            vstd::arithmetic::power2::lemma_pow2_adds(offset, (n - 1) as nat);
            lemma_pow2_pos(offset);
            lemma_pow2_pos((n - 1) as nat);
            vstd::arithmetic::div_mod::lemma_div_denominator(
                b as int,
                pow2(offset) as int,
                pow2((n - 1) as nat) as int,
            );
        }
        lemma_pow2_unfold(n);
        lemma_pow2_pos((n - 1) as nat);
        let p = pow2((n - 1) as nat) as int;
        // q % 2p == q % p + ((q / p) % 2) * p
        vstd::arithmetic::div_mod::lemma_mod_breakdown(q as int, p, 2);
        let d = (q as int / p) % 2;
        assert(p * d == d * p) by (nonlinear_arith);
        assert(p * 2 == 2 * p);
    }
}

/// Bit `k` of a byte, as machine code computes it.
pub proof fn lemma_byte_bit(byte: u8, k: u8)
    requires
        k < 8,
    ensures
        ((byte >> k) & 1) as nat == ((byte as nat) / pow2(k as nat)) % 2,
{
    lemma_u8_shr_is_div(byte, k);
    let shifted = byte >> k;
    assert(shifted & 1 == shifted % 2) by (bit_vector);
}

/// The number spelled by the `n` bits of `source` that start at bit
/// `bit_off` of byte `byte_idx`.
pub fn extract_bits(source: &[u8], byte_idx: usize, bit_off: u8, n: usize) -> (value: u64)
    requires
        bit_off < 8,
        n <= 64,
        8 * byte_idx + bit_off + n <= 8 * source@.len(),
    ensures
        value == bits_value(source@, 8 * byte_idx + bit_off, n as nat),
{
    let ghost start: int = 8 * byte_idx + bit_off;
    let ghost data = source@;
    let mut byte_idx: usize = byte_idx;
    let mut bit_off: u8 = bit_off;
    let mut value: u64 = 0;
    let mut k: usize = 0;
    while k < n
        invariant
            k <= n <= 64,
            0 <= start,
            source@ == data,
            bit_off < 8,
            8 * byte_idx + bit_off == start + k,
            start + n <= 8 * data.len(),
            value == bits_value(data, start, k as nat),
        decreases n - k,
    {
        let byte: u8 = source[byte_idx];
        let bit: u8 = (byte >> bit_off) & 1;
        proof {
            lemma_byte_bit(byte, bit_off);
            assert((start + k) / 8 == byte_idx as int && (start + k) % 8 == bit_off as int);
            assert(bit as nat == bit_at(data, start + k));
            lemma_bits_value_bound(data, start, k as nat);
            lemma_bits_value_bound(data, start, (k + 1) as nat);
            lemma_bits_value_unfold(data, start, (k + 1) as nat);
            lemma_pow2_strictly_increases(k as nat, 64);
            if k + 1 < 64 {
                lemma_pow2_strictly_increases((k + 1) as nat, 64);
            }
            lemma2_to64();
            lemma_u64_shl_is_mul(1u64, k as u64);
            assert((1u64 << (k as u64)) == pow2(k as nat));
            assert(bit == 1 ==> bit_at(data, start + k) * pow2(k as nat) == pow2(k as nat));
            assert(bit != 1 ==> bit_at(data, start + k) * pow2(k as nat) == 0);
        }
        if bit == 1 {
            value = value + (1u64 << (k as u64));
        }
        if bit_off == 7 {
            bit_off = 0;
            byte_idx = byte_idx + 1;
        } else {
            bit_off = bit_off + 1;
        }
        k = k + 1;
    }
    value
}

} // verus!
