//! Executing the sequences of a block: literals and matches, in turn, into
//! the output buffer.

use vstd::prelude::*;
use crate::blocks::sequence_section::Sequence;
use crate::decoding::decodebuffer::{
    law_match_adds_its_length, spec_push, spec_repeat, Decodebuffer, DecodebufferView,
};
use crate::errors::DecodeError;

verus! {

/// The distance that the offset value `of` of a sequence with `ll`
/// literals stands for, given the three most recent distances `hist`, the
/// most recent first; 0 or less if it stands for none.
///
/// A value above 3 is a new distance, the value less 3. The values 1, 2, 3
/// name the recent distances; but after no literals the most recent
/// distance cannot be meant, so they name the second, the third, and the
/// first less one.
pub open spec fn spec_actual_offset(of: u32, ll: u32, hist: Seq<u32>) -> int
    recommends
        hist.len() == 3,
{
    if of > 3 {
        of - 3
    } else if of == 0 {
        0
    } else if ll > 0 {
        hist[of - 1] as int
    } else if of == 3 {
        hist[0] - 1
    } else {
        hist[of as int] as int
    }
}

/// The recent distances after a sequence with offset value `of` and `ll`
/// literals has used the distance `actual`: the distance used comes first,
/// and those that were more recent than it move back by one place.
pub open spec fn spec_next_history(of: u32, ll: u32, hist: Seq<u32>, actual: u32) -> Seq<u32>
    recommends
        hist.len() == 3,
{
    // the place in the history that the distance was taken from; 2 for a new one
    let taken: int = if of > 3 {
        2
    } else if ll > 0 {
        of - 1
    } else if of == 3 {
        2
    } else {
        of as int
    };
    if taken == 0 {
        hist
    } else if taken == 1 {
        seq![actual, hist[0], hist[2]]
    } else {
        seq![actual, hist[0], hist[1]]
    }
}

/// What `do_offset_history` gives: the distance and the recent distances
/// after it, or `ZeroOffset` if the offset value stands for no distance.
pub open spec fn spec_offset_history(of: u32, ll: u32, hist: Seq<u32>) -> Result<
    (u32, Seq<u32>),
    DecodeError,
> {
    let actual = spec_actual_offset(of, ll, hist);
    if actual <= 0 {
        Err(DecodeError::ZeroOffset)
    } else {
        Ok((actual as u32, spec_next_history(of, ll, hist, actual as u32)))
    }
}

/// Where the execution of a block stands.
pub struct Execution {
    pub buffer: DecodebufferView,
    /// The three most recent distances.
    pub history: Seq<u32>,
    /// The number of literals that have been copied.
    pub literals_used: nat,
}

/// The execution after one more sequence: its literals are copied from
/// where the literals before them ended, then its match is appended. The
/// offset is resolved, and counts as the most recent distance, even if the
/// match is empty.
///
/// It is `SequenceCountMismatch` if the block has fewer literals left than
/// the sequence asks for; the errors of the offset and of the match are
/// passed on.
pub open spec fn spec_execute_sequence(state: Execution, literals: Seq<u8>, seq: Sequence) -> Result<
    Execution,
    DecodeError,
> {
    let high = state.literals_used + seq.ll;
    if high > literals.len() {
        Err(DecodeError::SequenceCountMismatch)
    } else {
        let pushed = spec_push(state.buffer, literals.subrange(state.literals_used as int, high as int));
        match spec_offset_history(seq.of, seq.ll, state.history) {
            Err(e) => Err(e),
            Ok((offset, history)) => if seq.ml == 0 {
                Ok(Execution { buffer: pushed, history, literals_used: high as nat })
            } else {
                match spec_repeat(pushed, offset as usize, seq.ml as usize) {
                    Err(e) => Err(e),
                    Ok(buffer) => Ok(Execution { buffer, history, literals_used: high as nat }),
                }
            },
        }
    }
}

/// The execution after the first `upto` sequences.
pub open spec fn spec_execute_upto(
    start: Execution,
    literals: Seq<u8>,
    sequences: Seq<Sequence>,
    upto: int,
) -> Result<Execution, DecodeError>
    decreases upto,
{
    if upto <= 0 {
        Ok(start)
    } else {
        match spec_execute_upto(start, literals, sequences, upto - 1) {
            Err(e) => Err(e),
            Ok(state) => spec_execute_sequence(state, literals, sequences[upto - 1]),
        }
    }
}

/// What executing a block gives: all sequences are executed in order, then
/// the literals that no sequence asked for are appended.
pub open spec fn spec_execute_sequences(
    buffer: DecodebufferView,
    history: Seq<u32>,
    literals: Seq<u8>,
    sequences: Seq<Sequence>,
) -> Result<Execution, DecodeError> {
    let start = Execution { buffer, history, literals_used: 0 };
    match spec_execute_upto(start, literals, sequences, sequences.len() as int) {
        Err(e) => Err(e),
        Ok(state) => Ok(
            Execution {
                buffer: spec_push(
                    state.buffer,
                    literals.subrange(state.literals_used as int, literals.len() as int),
                ),
                history: state.history,
                literals_used: literals.len(),
            },
        ),
    }
}

/// The sum of the match lengths of the first `upto` sequences.
pub open spec fn spec_match_total(sequences: Seq<Sequence>, upto: int) -> nat
    decreases upto,
{
    if upto <= 0 {
        0
    } else {
        spec_match_total(sequences, upto - 1) + sequences[upto - 1].ml as nat
    }
}

/// The sum of the literal lengths of the first `upto` sequences.
pub open spec fn spec_literal_total(sequences: Seq<Sequence>, upto: int) -> nat
    decreases upto,
{
    if upto <= 0 {
        0
    } else {
        spec_literal_total(sequences, upto - 1) + sequences[upto - 1].ll as nat
    }
}

/// Resolves the offset value `offset_value` of a sequence with `lit_len`
/// literals against the recent distances in `scratch`, and brings them up
/// to date. On an error they are left as they were.
pub fn do_offset_history(offset_value: u32, lit_len: u32, scratch: &mut [u32; 3]) -> (res: Result<
    u32,
    DecodeError,
>)
    ensures
        match spec_offset_history(offset_value, lit_len, old(scratch)@) {
            Ok((actual, history)) => res == Ok::<u32, DecodeError>(actual) && final(scratch)@
                == history,
            Err(e) => res == Err::<u32, DecodeError>(e) && final(scratch)@ == old(scratch)@,
        },
{
    let o1: u32 = scratch[0];
    let o2: u32 = scratch[1];
    let o3: u32 = scratch[2];
    if offset_value == 0 {
        return Err(DecodeError::ZeroOffset);
    }
    let actual_offset: u32 = if offset_value > 3 {
        offset_value - 3
    } else if lit_len > 0 {
        if offset_value == 1 {
            o1
        } else if offset_value == 2 {
            o2
        } else {
            o3
        }
    } else {
        if offset_value == 1 {
            o2
        } else if offset_value == 2 {
            o3
        } else {
            if o1 == 0 {
                return Err(DecodeError::ZeroOffset);
            }
            o1 - 1
        }
    };
    if actual_offset == 0 {
        return Err(DecodeError::ZeroOffset);
    }
    if lit_len > 0 && offset_value == 1 {
        // the most recent distance again: nothing moves
    } else if (lit_len > 0 && offset_value == 2) || (lit_len == 0 && offset_value == 1) {
        *scratch = [actual_offset, o1, o3];
        assert(scratch@ =~= seq![actual_offset, o1, o3]);
    } else {
        *scratch = [actual_offset, o1, o2];
        assert(scratch@ =~= seq![actual_offset, o1, o2]);
    }
    Ok(actual_offset)
}

/// Executes the sequences of a block on `buffer`, as
/// [`spec_execute_sequences`] describes, taking the literals from
/// `literals` and keeping the recent distances in `offset_hist`.
///
/// On success the buffer has grown by the literals and by the match
/// lengths of all sequences. On an error the buffer and the distances are
/// left as the sequences before the failing one made them.
pub fn execute_sequences(
    buffer: &mut Decodebuffer,
    literals: &[u8],
    sequences: &[Sequence],
    offset_hist: &mut [u32; 3],
) -> (res: Result<(), DecodeError>)
    ensures
        match spec_execute_sequences(old(buffer)@, old(offset_hist)@, literals@, sequences@) {
            Ok(state) => res is Ok && final(buffer)@ == state.buffer && final(offset_hist)@
                == state.history,
            Err(e) => res == Err::<(), DecodeError>(e),
        },
        res is Ok ==> final(buffer)@.buffer.len() == old(buffer)@.buffer.len() + literals@.len()
            + spec_match_total(sequences@, sequences@.len() as int),
{
    let ghost start = Execution {
        buffer: buffer@,
        history: offset_hist@,
        literals_used: 0,
    };
    let mut literals_copy_counter: usize = 0;
    let mut idx: usize = 0;
    while idx < sequences.len()
        invariant
            idx <= sequences@.len(),
            literals_copy_counter <= literals@.len(),
            start == (Execution {
                buffer: old(buffer)@,
                history: old(offset_hist)@,
                literals_used: 0,
            }),
            spec_execute_upto(start, literals@, sequences@, idx as int) == Ok::<
                Execution,
                DecodeError,
            >(
                Execution {
                    buffer: buffer@,
                    history: offset_hist@,
                    literals_used: literals_copy_counter as nat,
                },
            ),
            buffer@.buffer.len() == start.buffer.buffer.len() + literals_copy_counter
                + spec_match_total(sequences@, idx as int),
        decreases sequences@.len() - idx,
    {
        let seq: Sequence = sequences[idx];
        let ghost before = Execution {
            buffer: buffer@,
            history: offset_hist@,
            literals_used: literals_copy_counter as nat,
        };
        assert(spec_execute_upto(start, literals@, sequences@, idx + 1) == spec_execute_sequence(
            before,
            literals@,
            seq,
        ));
        proof {
            if spec_execute_sequence(before, literals@, seq) is Err {
                lemma_execute_error_stays(
                    start,
                    literals@,
                    sequences@,
                    idx + 1,
                    sequences@.len() as int,
                );
            }
        }
        if seq.ll as usize > literals.len() - literals_copy_counter {
            return Err(DecodeError::SequenceCountMismatch);
        }
        let high: usize = literals_copy_counter + seq.ll as usize;
        if seq.ll > 0 {
            buffer.push(&literals[literals_copy_counter..high]);
        } else {
            assert(literals@.subrange(literals_copy_counter as int, high as int) =~= Seq::<
                u8,
            >::empty());
            assert(buffer@.buffer + Seq::<u8>::empty() =~= buffer@.buffer);
        }
        literals_copy_counter = high;
        let ghost pushed = buffer@;

        let actual_offset: u32 = match do_offset_history(seq.of, seq.ll, offset_hist) {
            Ok(offset) => offset,
            Err(e) => {
                return Err(e);
            },
        };
        if seq.ml > 0 {
            match buffer.repeat(actual_offset as usize, seq.ml as usize) {
                Ok(()) => {},
                Err(e) => {
                    return Err(e);
                },
            }
        }
        proof {
            law_match_adds_its_length(pushed, actual_offset as usize, seq.ml as usize);
        }
        idx = idx + 1;
    }
    if literals_copy_counter < literals.len() {
        buffer.push(&literals[literals_copy_counter..literals.len()]);
    } else {
        assert(literals@.subrange(literals_copy_counter as int, literals@.len() as int) =~= Seq::<
            u8,
        >::empty());
        assert(buffer@.buffer + Seq::<u8>::empty() =~= buffer@.buffer);
    }
    Ok(())
}

/// Once a sequence has failed, the block has failed with its error.
pub proof fn lemma_execute_error_stays(
    start: Execution,
    literals: Seq<u8>,
    sequences: Seq<Sequence>,
    failed: int,
    upto: int,
)
    requires
        failed <= upto,
        spec_execute_upto(start, literals, sequences, failed) is Err,
    ensures
        spec_execute_upto(start, literals, sequences, upto) == spec_execute_upto(
            start,
            literals,
            sequences,
            failed,
        ),
    decreases upto - failed,
{
    if failed < upto {
        lemma_execute_error_stays(start, literals, sequences, failed, upto - 1);
    }
}

/// Whether two buffers differ in nothing but their bytes and their output
/// counter.
pub open spec fn spec_same_frame(a: DecodebufferView, b: DecodebufferView) -> bool {
    &&& a.hashed == b.hashed
    &&& a.hash_seed == b.hash_seed
    &&& a.window_size == b.window_size
    &&& a.dict_content == b.dict_content
}

/// Executing sequences lets nothing out of the buffer and changes neither
/// its window nor its dictionary content.
pub proof fn lemma_execute_upto_keeps_hashed(
    start: Execution,
    literals: Seq<u8>,
    sequences: Seq<Sequence>,
    upto: int,
)
    ensures
        spec_execute_upto(start, literals, sequences, upto) matches Ok(state) ==> spec_same_frame(
            state.buffer,
            start.buffer,
        ),
    decreases upto,
{
    if upto > 0 {
        lemma_execute_upto_keeps_hashed(start, literals, sequences, upto - 1);
    }
}

/// See [`lemma_execute_upto_keeps_hashed`].
pub proof fn lemma_execute_keeps_hashed(
    buffer: DecodebufferView,
    history: Seq<u32>,
    literals: Seq<u8>,
    sequences: Seq<Sequence>,
)
    ensures
        spec_execute_sequences(buffer, history, literals, sequences) matches Ok(state)
            ==> spec_same_frame(state.buffer, buffer),
{
    let start = Execution { buffer, history, literals_used: 0 };
    lemma_execute_upto_keeps_hashed(start, literals, sequences, sequences.len() as int);
}

/// After no literals, the offset value 1 stands for the second most
/// recent distance, not for the most recent one; the two then change
/// places.
pub proof fn law_repeat_offset_after_no_literals(hist: Seq<u32>)
    requires
        hist.len() == 3,
        hist[1] > 0,
    ensures
        spec_offset_history(1, 0, hist) == Ok::<(u32, Seq<u32>), DecodeError>(
            (hist[1], seq![hist[1], hist[0], hist[2]]),
        ),
{
}

/// After literals, the offset value 1 stands for the most recent
/// distance, and the recent distances stay as they are.
pub proof fn law_repeat_offset_after_literals(ll: u32, hist: Seq<u32>)
    requires
        hist.len() == 3,
        ll > 0,
        hist[0] > 0,
    ensures
        spec_offset_history(1, ll, hist) == Ok::<(u32, Seq<u32>), DecodeError>((hist[0], hist)),
{
}

/// A new distance becomes the most recent one, and the oldest is
/// forgotten.
pub proof fn law_new_offset_enters_history(of: u32, ll: u32, hist: Seq<u32>)
    requires
        hist.len() == 3,
        of > 3,
    ensures
        spec_offset_history(of, ll, hist) == Ok::<(u32, Seq<u32>), DecodeError>(
            ((of - 3) as u32, seq![(of - 3) as u32, hist[0], hist[1]]),
        ),
{
}

/// See [`law_block_output_length`]: the same of the first `upto`
/// sequences.
pub proof fn lemma_execute_upto_length(
    start: Execution,
    literals: Seq<u8>,
    sequences: Seq<Sequence>,
    upto: int,
)
    requires
        0 <= upto <= sequences.len(),
        start.literals_used == 0,
    ensures
        spec_execute_upto(start, literals, sequences, upto) matches Ok(state) ==> {
            &&& state.literals_used == spec_literal_total(sequences, upto)
            &&& state.literals_used <= literals.len()
            &&& state.buffer.buffer.len() == start.buffer.buffer.len() + spec_literal_total(
                sequences,
                upto,
            ) + spec_match_total(sequences, upto)
        },
    decreases upto,
{
    if upto > 0 {
        lemma_execute_upto_length(start, literals, sequences, upto - 1);
        match spec_execute_upto(start, literals, sequences, upto - 1) {
            Ok(state) => {
                let seq = sequences[upto - 1];
                let high = state.literals_used + seq.ll;
                if high <= literals.len() {
                    let pushed = spec_push(
                        state.buffer,
                        literals.subrange(state.literals_used as int, high as int),
                    );
                    match spec_offset_history(seq.of, seq.ll, state.history) {
                        Ok((offset, history)) => {
                            law_match_adds_its_length(pushed, offset as usize, seq.ml as usize);
                        },
                        Err(_) => {},
                    }
                }
            },
            Err(_) => {},
        }
    }
}

/// The output of a block is as long as its literals and the matches of
/// its sequences together: the literal lengths of the sequences, their
/// match lengths, and the literals that are left behind the last sequence.
pub proof fn law_block_output_length(
    buffer: DecodebufferView,
    history: Seq<u32>,
    literals: Seq<u8>,
    sequences: Seq<Sequence>,
)
    ensures
        spec_execute_sequences(buffer, history, literals, sequences) matches Ok(state) ==> {
            let all = sequences.len() as int;
            let tail_literals = literals.len() - spec_literal_total(sequences, all);
            &&& tail_literals >= 0
            &&& state.buffer.buffer.len() == buffer.buffer.len() + spec_literal_total(
                sequences,
                all,
            ) + spec_match_total(sequences, all) + tail_literals
        },
{
    let start = Execution { buffer, history, literals_used: 0 };
    lemma_execute_upto_length(start, literals, sequences, sequences.len() as int);
}

/// A block without sequences puts out its literals and nothing else, and
/// leaves the recent distances as they are.
pub proof fn law_block_without_sequences(
    buffer: DecodebufferView,
    history: Seq<u32>,
    literals: Seq<u8>,
)
    ensures
        spec_execute_sequences(buffer, history, literals, Seq::empty()) == Ok::<
            Execution,
            DecodeError,
        >(
            Execution {
                buffer: spec_push(buffer, literals),
                history,
                literals_used: literals.len(),
            },
        ),
{
    assert(literals.subrange(0, literals.len() as int) =~= literals);
}

} // verus!
