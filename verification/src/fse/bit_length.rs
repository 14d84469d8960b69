//! The length of a number in binary digits, and what it says about powers
//! of two.

use vstd::prelude::*;
use vstd::arithmetic::power2::{pow2, lemma2_to64, lemma_pow2_unfold, lemma_pow2_strictly_increases};

verus! {

/// The number of binary digits of `x`: 0 for 0, else one more than the
/// position of its highest set bit.
pub open spec fn spec_bit_length(x: nat) -> nat
    decreases x,
{
    if x == 0 {
        0
    } else {
        1 + spec_bit_length(x / 2)
    }
}

/// A number lies between the two powers of two that its length names.
pub proof fn lemma_bit_length_bounds(x: nat)
    ensures
        x < pow2(spec_bit_length(x)),
        x > 0 ==> pow2((spec_bit_length(x) - 1) as nat) <= x,
    decreases x,
{
    lemma2_to64();
    if x > 0 {
        lemma_bit_length_bounds(x / 2);
        lemma_pow2_unfold(spec_bit_length(x));
        if x / 2 > 0 {
            lemma_pow2_unfold(spec_bit_length(x / 2));
        }
    }
}

/// A number below `2^n` has at most `n` digits.
pub proof fn lemma_bit_length_le(x: nat, n: nat)
    requires
        x < pow2(n),
    ensures
        spec_bit_length(x) <= n,
{
    lemma_bit_length_bounds(x);
    if x > 0 && spec_bit_length(x) > n {
        let len = (spec_bit_length(x) - 1) as nat;
        if n < len {
            lemma_pow2_strictly_increases(n, len);
        }
    }
}

/// A number of at least `2^n` has more than `n` digits.
pub proof fn lemma_bit_length_gt(x: nat, n: nat)
    requires
        pow2(n) <= x,
    ensures
        spec_bit_length(x) > n,
{
    lemma_bit_length_bounds(x);
    if spec_bit_length(x) <= n {
        if spec_bit_length(x) < n {
            lemma_pow2_strictly_increases(spec_bit_length(x), n);
        }
    }
}

/// The number of binary digits of `x`.
pub fn highest_bit_set(x: u32) -> (res: u32)
    ensures
        res == spec_bit_length(x as nat),
        res <= 32,
{
    let mut rest: u32 = x;
    let mut digits: u32 = 0;
    proof {
        lemma2_to64();
        lemma_bit_length_le(x as nat, 32);
    }
    while rest > 0
        invariant
            spec_bit_length(x as nat) == digits + spec_bit_length(rest as nat),
            spec_bit_length(x as nat) <= 32,
        decreases rest,
    {
        rest = rest / 2;
        digits = digits + 1;
    }
    digits
}

} // verus!
