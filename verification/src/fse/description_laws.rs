//! Table descriptions in data that is cut short: a description is read
//! the same whatever follows it, and is refused as short input if the data
//! ends within it.

use vstd::prelude::*;
use vstd::arithmetic::power2::{pow2, lemma2_to64};
use crate::decoding::bits::{bits_value, lemma_bits_of_prefix, lemma_bits_value_bound, spec_is_prefix};
use crate::errors::DecodeError;
use crate::fse::bit_length::spec_bit_length;
use crate::fse::fse_decoder::{spec_build_decoder, FSETableView};
use crate::fse::probabilities::{
    lemma_read_value_bounds, lemma_zero_run_advances, spec_prob_weight, spec_read_probabilities,
    spec_read_probs, spec_read_value, spec_read_zero_run, spec_zeros, ACC_LOG_OFFSET,
};

verus! {

/// A run of zeros in data that is cut short is either found as in the
/// whole data or refused as short input.
pub proof fn lemma_read_zero_run_prefix(part: Seq<u8>, whole: Seq<u8>, pos: nat, probs: Seq<i32>)
    requires
        spec_is_prefix(part, whole),
    ensures
        spec_read_zero_run(part, pos, probs) == Err::<(Seq<i32>, nat), DecodeError>(
            DecodeError::ShortInput,
        ) || spec_read_zero_run(part, pos, probs) == spec_read_zero_run(whole, pos, probs),
    decreases 8 * part.len() - pos,
{
    if pos + 2 <= 8 * part.len() {
        lemma_bits_of_prefix(part, whole, pos as int, 2);
        let skip = bits_value(part, pos as int, 2);
        if skip == 3 {
            lemma_read_zero_run_prefix(part, whole, pos + 2, probs + spec_zeros(skip));
        }
    }
}

/// The probabilities in data that is cut short are either read as in the
/// whole data or refused as short input.
pub proof fn lemma_read_probs_prefix(
    part: Seq<u8>,
    whole: Seq<u8>,
    acc_log: nat,
    pos: nat,
    counter: nat,
    probs: Seq<i32>,
)
    requires
        spec_is_prefix(part, whole),
    ensures
        spec_read_probs(part, acc_log, pos, counter, probs) == Err::<
            (Seq<i32>, nat),
            DecodeError,
        >(DecodeError::ShortInput) || spec_read_probs(part, acc_log, pos, counter, probs)
            == spec_read_probs(whole, acc_log, pos, counter, probs),
    decreases 8 * part.len() - pos,
{
    let sum = pow2(acc_log);
    if counter < sum {
        let max = (sum - counter + 1) as nat;
        let bits = spec_bit_length(max);
        if pos + bits <= 8 * part.len() {
            lemma_bits_of_prefix(part, whole, pos as int, bits);
            lemma_read_value_bounds(part, pos as int, max);
            let (value, used) = spec_read_value(part, pos as int, max);
            assert(spec_read_value(whole, pos as int, max) == (value, used));
            let prob = (value - 1) as i32;
            if prob != 0 {
                lemma_read_probs_prefix(
                    part,
                    whole,
                    acc_log,
                    pos + used,
                    counter + spec_prob_weight(prob),
                    probs.push(prob),
                );
            } else {
                lemma_read_zero_run_prefix(part, whole, pos + used, probs.push(prob));
                lemma_zero_run_advances(part, pos + used, probs.push(prob));
                lemma_zero_run_advances(whole, pos + used, probs.push(prob));
                match spec_read_zero_run(part, pos + used, probs.push(prob)) {
                    Ok((longer, behind)) => {
                        lemma_read_probs_prefix(part, whole, acc_log, behind, counter, longer);
                    },
                    Err(_) => {},
                }
            }
        }
    }
}

/// Reading probabilities ends within the data.
pub proof fn lemma_read_probs_end(
    data: Seq<u8>,
    acc_log: nat,
    pos: nat,
    counter: nat,
    probs: Seq<i32>,
)
    requires
        pos <= 8 * data.len(),
    ensures
        spec_read_probs(data, acc_log, pos, counter, probs) matches Ok((all, behind)) ==> pos
            <= behind <= 8 * data.len(),
    decreases 8 * data.len() - pos,
{
    let sum = pow2(acc_log);
    if counter < sum {
        let max = (sum - counter + 1) as nat;
        let bits = spec_bit_length(max);
        if pos + bits <= 8 * data.len() {
            lemma_read_value_bounds(data, pos as int, max);
            let (value, used) = spec_read_value(data, pos as int, max);
            let prob = (value - 1) as i32;
            if prob != 0 {
                lemma_read_probs_end(
                    data,
                    acc_log,
                    pos + used,
                    counter + spec_prob_weight(prob),
                    probs.push(prob),
                );
            } else {
                lemma_zero_run_advances(data, pos + used, probs.push(prob));
                match spec_read_zero_run(data, pos + used, probs.push(prob)) {
                    Ok((longer, behind)) => {
                        lemma_read_probs_end(data, acc_log, behind, counter, longer);
                    },
                    Err(_) => {},
                }
            }
        }
    }
}

/// A table description in data that is cut short is either read as in the
/// whole data or refused as short input; and a description that is read
/// lies within the data.
pub proof fn lemma_read_probabilities_prefix(part: Seq<u8>, whole: Seq<u8>, max_log: u8)
    requires
        spec_is_prefix(part, whole),
    ensures
        spec_read_probabilities(part, max_log) == Err::<(u8, Seq<i32>, usize), DecodeError>(
            DecodeError::ShortInput,
        ) || spec_read_probabilities(part, max_log) == spec_read_probabilities(whole, max_log),
        part.len() <= usize::MAX ==> (spec_read_probabilities(part, max_log) matches Ok(
            (acc_log, probs, bytes),
        ) ==> bytes <= part.len()),
{
    if 8 * part.len() >= 4 {
        lemma2_to64();
        lemma_bits_of_prefix(part, whole, 0, 4);
        lemma_bits_value_bound(part, 0, 4);
        let acc_log = (ACC_LOG_OFFSET + bits_value(part, 0, 4)) as nat;
        lemma_read_probs_prefix(part, whole, acc_log, 4, 0, Seq::empty());
        lemma_read_probs_end(part, acc_log, 4, 0, Seq::empty());
    }
}

/// A table in data that is cut short is either built as from the whole
/// data or refused as short input; and the description of a table that is
/// built lies within the data.
pub proof fn lemma_build_decoder_prefix(part: Seq<u8>, whole: Seq<u8>, max_log: u8)
    requires
        spec_is_prefix(part, whole),
        part.len() <= usize::MAX,
    ensures
        spec_build_decoder(part, max_log) == Err::<(FSETableView, usize), DecodeError>(
            DecodeError::ShortInput,
        ) || spec_build_decoder(part, max_log) == spec_build_decoder(whole, max_log),
        spec_build_decoder(part, max_log) matches Ok((table, bytes)) ==> bytes <= part.len(),
{
    reveal(spec_build_decoder);
    lemma_read_probabilities_prefix(part, whole, max_log);
}

} // verus!
