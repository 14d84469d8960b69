//! The compressed description of an FSE table: an accuracy log followed by
//! one probability for each symbol, each written with just as many bits as
//! the probabilities still to come can need.

use vstd::prelude::*;
use vstd::arithmetic::power2::{pow2, lemma2_to64, lemma_pow2_unfold, lemma_pow2_pos, lemma_pow2_strictly_increases};
use vstd::bits::lemma_u32_shl_is_mul;
use crate::decoding::bit_reader::BitReader;
use crate::decoding::bits::{bits_value, lemma_bits_value_bound};
use crate::errors::DecodeError;
use crate::fse::bit_length::{highest_bit_set, lemma_bit_length_bounds, lemma_bit_length_gt, lemma_bit_length_le, spec_bit_length};

verus! {

/// The accuracy log is stored as its distance from this value.
pub const ACC_LOG_OFFSET: u8 = 5;

/// No table describes more symbols than a byte can name.
pub const MAX_SYMBOLS: usize = 256;

/// The share of the table that a symbol of probability `p` takes: a symbol
/// of probability -1 ("less than one") takes one cell.
pub open spec fn spec_prob_weight(p: i32) -> nat {
    if p == -1 {
        1
    } else if p > 0 {
        p as nat
    } else {
        0
    }
}

/// The field of a probability at bit `pos`, when no value above `max` can
/// stand there: the value, and the number of bits it takes. The field is
/// as wide as `max` is long; the values that fit under the unused codes of
/// that width are written with one bit less.
pub open spec fn spec_read_value(data: Seq<u8>, pos: int, max: nat) -> (nat, nat) {
    let bits = spec_bit_length(max);
    let unchecked = bits_value(data, pos, bits);
    let half = pow2((bits - 1) as nat);
    let low_threshold = 2 * half - 1 - max;
    let small = unchecked % half;
    if small < low_threshold {
        (small, (bits - 1) as nat)
    } else if unchecked >= half {
        ((unchecked - low_threshold) as nat, bits)
    } else {
        (unchecked, bits)
    }
}

/// A run of `n` zero probabilities.
pub open spec fn spec_zeros(n: nat) -> Seq<i32> {
    Seq::new(n, |i: int| 0i32)
}

/// What follows a probability of zero: two-bit counts of further zero
/// probabilities, as long as the count read is 3. Gives the probabilities
/// with the zeros added and the bit position behind the last count.
pub open spec fn spec_read_zero_run(data: Seq<u8>, pos: nat, probs: Seq<i32>) -> Result<
    (Seq<i32>, nat),
    DecodeError,
>
    decreases 8 * data.len() - pos,
{
    if pos + 2 > 8 * data.len() {
        Err(DecodeError::ShortInput)
    } else {
        let skip = bits_value(data, pos as int, 2);
        let longer = probs + spec_zeros(skip);
        if skip == 3 {
            spec_read_zero_run(data, pos + 2, longer)
        } else {
            Ok((longer, pos + 2))
        }
    }
}

/// The probabilities from bit `pos` on, when those read so far are `probs`
/// and take `counter` of the `2^acc_log` cells of the table. Reading ends
/// when all cells are taken. Gives all probabilities and the bit position
/// behind the last one.
pub open spec fn spec_read_probs(
    data: Seq<u8>,
    acc_log: nat,
    pos: nat,
    counter: nat,
    probs: Seq<i32>,
) -> Result<(Seq<i32>, nat), DecodeError>
    decreases 8 * data.len() - pos,
{
    let sum = pow2(acc_log);
    if counter >= sum {
        Ok((probs, pos))
    } else {
        let max = (sum - counter + 1) as nat;
        let bits = spec_bit_length(max);
        if pos + bits > 8 * data.len() {
            Err(DecodeError::ShortInput)
        } else {
            let (value, used) = spec_read_value(data, pos as int, max);
            let prob = (value - 1) as i32;
            if used == 0 {
                // cannot happen: `max` is at least 2, so the field has a bit
                Err(DecodeError::FSEProbsInvalid)
            } else if prob != 0 {
                spec_read_probs(
                    data,
                    acc_log,
                    pos + used,
                    counter + spec_prob_weight(prob),
                    probs.push(prob),
                )
            } else {
                match spec_read_zero_run(data, pos + used, probs.push(prob)) {
                    Err(e) => Err(e),
                    Ok((longer, behind)) => if behind <= pos || behind > 8 * data.len() {
                        // cannot happen: a run ends behind its start, within the data
                        Err(DecodeError::FSEProbsInvalid)
                    } else {
                        spec_read_probs(data, acc_log, behind, counter, longer)
                    },
                }
            }
        }
    }
}

/// What the table description at the start of `source` says: the accuracy
/// log, the probabilities of the symbols from 0 on, and the number of bytes
/// the description takes.
///
/// It is `ShortInput` if `source` ends within the description, and
/// `FSEProbsInvalid` if the accuracy log exceeds `max_log` or more than 256
/// symbols are described.
pub open spec fn spec_read_probabilities(source: Seq<u8>, max_log: u8) -> Result<
    (u8, Seq<i32>, usize),
    DecodeError,
> {
    if 8 * source.len() < 4 {
        Err(DecodeError::ShortInput)
    } else {
        let acc_log = ACC_LOG_OFFSET + bits_value(source, 0, 4);
        if acc_log > max_log {
            Err(DecodeError::FSEProbsInvalid)
        } else {
            match spec_read_probs(source, acc_log as nat, 4, 0, Seq::empty()) {
                Err(e) => Err(e),
                Ok((probs, behind)) => if probs.len() > MAX_SYMBOLS {
                    Err(DecodeError::FSEProbsInvalid)
                } else {
                    Ok((acc_log as u8, probs, ((behind + 7) / 8) as usize))
                },
            }
        }
    }
}

/// A probability field holds a value of at most `max`, in at least one bit
/// and at most as many bits as `max` is long.
pub proof fn lemma_read_value_bounds(data: Seq<u8>, pos: int, max: nat)
    requires
        max >= 2,
    ensures
        spec_read_value(data, pos, max).0 <= max,
        1 <= spec_read_value(data, pos, max).1 <= spec_bit_length(max),
        spec_bit_length(max) >= 2,
{
    let bits = spec_bit_length(max);
    lemma2_to64();
    lemma_bit_length_gt(max, 1);
    lemma_bit_length_bounds(max);
    lemma_bits_value_bound(data, pos, bits);
    lemma_pow2_unfold(bits);
    lemma_pow2_pos((bits - 1) as nat);
}

/// A run of zeros ends behind where it started, within the data.
pub proof fn lemma_zero_run_advances(data: Seq<u8>, pos: nat, probs: Seq<i32>)
    ensures
        spec_read_zero_run(data, pos, probs) matches Ok((longer, behind)) ==> pos < behind <= 8
            * data.len() && longer.len() >= probs.len(),
    decreases 8 * data.len() - pos,
{
    if pos + 2 <= 8 * data.len() {
        let skip = bits_value(data, pos as int, 2);
        if skip == 3 {
            lemma_zero_run_advances(data, pos + 2, probs + spec_zeros(skip));
        }
    }
}

/// `2^e` as a machine number.
pub fn pow2_u32(e: u32) -> (res: u32)
    requires
        e < 32,
    ensures
        res == pow2(e as nat),
{
    proof {
        lemma2_to64();
        if e < 31 {
            lemma_pow2_strictly_increases(e as nat, 31);
        }
        lemma_u32_shl_is_mul(1u32, e);
    }
    1u32 << e
}

/// Reads the table description at the start of `source`, as
/// [`spec_read_probabilities`] describes.
#[verifier::loop_isolation(false)]
#[verifier::rlimit(40)]
pub fn read_probabilities(source: &[u8], max_log: u8) -> (res: Result<
    (u8, Vec<i32>, usize),
    DecodeError,
>)
    ensures
        match spec_read_probabilities(source@, max_log) {
            Ok((acc_log, probs, bytes)) => res matches Ok(got) && got.0 == acc_log && got.1@
                == probs && got.2 == bytes,
            Err(e) => res matches Err(got) && got == e,
        },
        res matches Ok(got) ==> 5 <= got.0 <= 20 && got.0 <= max_log && got.1@.len() <= MAX_SYMBOLS
            && got.2 <= source@.len(),
{
    let mut probs: Vec<i32> = Vec::new();
    let mut br = BitReader::new(source);
    let acc_log: u8 = match br.get_bits(4) {
        Ok(v) => {
            proof {
                lemma_bits_value_bound(source@, 0, 4);
                lemma2_to64();
            }
            ACC_LOG_OFFSET + v as u8
        },
        Err(e) => {
            return Err(e);
        },
    };
    if acc_log > max_log {
        return Err(DecodeError::FSEProbsInvalid);
    }
    let sum: u32 = pow2_u32(acc_log as u32);
    let mut counter: u32 = 0;
    let ghost data = source@;
    let ghost whole = spec_read_probs(data, acc_log as nat, 4, 0, Seq::empty());
    proof {
        lemma2_to64();
        lemma_pow2_strictly_increases(acc_log as nat, 21);
    }
    while counter < sum
        invariant
            br.source() == data,
            br.position() <= 8 * data.len(),
            counter <= sum,
            whole == spec_read_probs(data, acc_log as nat, br.position(), counter as nat, probs@),
        decreases 8 * data.len() - br.position(),
    {
        let ghost pos = br.position();
        let max_remaining_value: u32 = sum - counter + 1;
        let bits_to_read: u32 = highest_bit_set(max_remaining_value);
        proof {
            lemma2_to64();
            lemma_read_value_bounds(data, pos as int, max_remaining_value as nat);
            lemma_bit_length_le(max_remaining_value as nat, 21);
            lemma_bits_value_bound(data, pos as int, bits_to_read as nat);
            lemma_pow2_strictly_increases(bits_to_read as nat, 32);
            lemma_pow2_unfold(bits_to_read as nat);
            lemma_bit_length_bounds(max_remaining_value as nat);
        }
        let unchecked_value: u32 = match br.get_bits(bits_to_read as usize) {
            Ok(v) => v as u32,
            Err(e) => {
                return Err(e);
            },
        };
        let half: u32 = pow2_u32(bits_to_read - 1);
        let low_threshold: u32 = 2 * half - 1 - max_remaining_value;
        let small_value: u32 = unchecked_value % half;
        let value: u32 = if small_value < low_threshold {
            br.return_bits(1);
            small_value
        } else if unchecked_value >= half {
            unchecked_value - low_threshold
        } else {
            unchecked_value
        };
        assert(value == spec_read_value(data, pos as int, max_remaining_value as nat).0);
        assert(br.position() == pos + spec_read_value(
            data,
            pos as int,
            max_remaining_value as nat,
        ).1);
        let prob: i32 = value as i32 - 1;
        probs.push(prob);
        if prob != 0 {
            if prob > 0 {
                counter = counter + prob as u32;
            } else {
                // a probability of -1 takes one cell
                counter = counter + 1;
            }
        } else {
            // skip over runs of further zero probabilities
            let ghost run_start = br.position();
            let ghost run_probs = probs@;
            proof {
                lemma_zero_run_advances(data, run_start, run_probs);
            }
            let mut more: bool = true;
            while more
                invariant
                    br.source() == data,
                    pos < br.position() <= 8 * data.len(),
                    more ==> spec_read_zero_run(data, run_start, run_probs) == spec_read_zero_run(
                        data,
                        br.position(),
                        probs@,
                    ),
                    !more ==> spec_read_zero_run(data, run_start, run_probs) == Ok::<
                        (Seq<i32>, nat),
                        DecodeError,
                    >((probs@, br.position())),
                decreases 8 * data.len() - br.position() + (if more { 1nat } else { 0nat }),
            {
                let ghost before = probs@;
                let skip_amount: u64 = match br.get_bits(2) {
                    Ok(v) => v,
                    Err(e) => {
                        return Err(e);
                    },
                };
                proof {
                    lemma2_to64();
                    lemma_bits_value_bound(data, (br.position() - 2) as int, 2);
                }
                if skip_amount >= 1 {
                    probs.push(0);
                }
                if skip_amount >= 2 {
                    probs.push(0);
                }
                if skip_amount >= 3 {
                    probs.push(0);
                }
                assert(probs@ =~= before + spec_zeros(skip_amount as nat));
                more = skip_amount == 3;
            }
        }
    }
    assert(whole == Ok::<(Seq<i32>, nat), DecodeError>((probs@, br.position())));
    if probs.len() > MAX_SYMBOLS {
        return Err(DecodeError::FSEProbsInvalid);
    }
    let bytes_read: usize = br.bytes_read();
    Ok((acc_log, probs, bytes_read))
}

} // verus!
