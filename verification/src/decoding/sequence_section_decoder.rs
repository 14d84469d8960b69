//! Decoding the sequences section of a compressed block.
//!
//! The section names, for each of the three kinds of code, the table to
//! decode it with; then a backward bitstream holds the first state of each
//! table and, for every sequence, the extra bits of its three codes and
//! the bits that lead to the next states.

use vstd::prelude::*;
use vstd::arithmetic::power2::{pow2, lemma2_to64, lemma_pow2_strictly_increases};
use crate::blocks::sequence_section::{
    spec_decode_mode, CompressionModes, ModeType, Sequence, SequencesHeader, SequencesHeaderView,
};
use crate::decoding::bit_reader_reverse::{spec_stream_bits, BitReaderReversed};
use crate::decoding::bits::{bits_value, lemma_bits_value_bound};
use crate::decoding::dictionary::{LL_MAX_LOG, ML_MAX_LOG, OF_MAX_LOG};
use crate::decoding::scratch::{FSEScratch, FSEScratchView};
use crate::errors::DecodeError;
use crate::fse::fse_decoder::{
    spec_build_decoder, spec_build_from_probabilities, FSEDecoder, FSETable, FSETableView,
};
use crate::fse::probabilities::pow2_u32;

verus! {

/// The highest literal-length code.
pub const MAX_LITERAL_LENGTH_CODE: u8 = 35;

/// The highest match-length code.
pub const MAX_MATCH_LENGTH_CODE: u8 = 52;

/// The highest offset code: an offset value has at most 32 bits.
pub const MAX_OFFSET_CODE: u8 = 31;

/// The accuracy log of the predefined table of literal-length codes.
pub const LL_DEFAULT_ACC_LOG: u8 = 6;

/// The accuracy log of the predefined table of match-length codes.
pub const ML_DEFAULT_ACC_LOG: u8 = 6;

/// The accuracy log of the predefined table of offset codes.
pub const OF_DEFAULT_ACC_LOG: u8 = 5;

/// The predefined distribution of the literal-length codes.
pub const LITERALS_LENGTH_DEFAULT_DISTRIBUTION: [i32; 36] = [
    4, 3, 2, 2, 2, 2, 2, 2, 2, 2, 2, 2, 2, 1, 1, 1, 2, 2, 2, 2, 2, 2, 2, 2, 2, 3, 2, 1, 1, 1, 1, 1,
    -1, -1, -1, -1,
];

/// The predefined distribution of the match-length codes.
pub const MATCH_LENGTH_DEFAULT_DISTRIBUTION: [i32; 53] = [
    1, 4, 3, 2, 2, 2, 2, 2, 2, 1, 1, 1, 1, 1, 1, 1, 1, 1, 1, 1, 1, 1, 1, 1, 1, 1, 1, 1, 1, 1, 1, 1,
    1, 1, 1, 1, 1, 1, 1, 1, 1, 1, 1, 1, 1, 1, -1, -1, -1, -1, -1, -1, -1,
];

/// The predefined distribution of the offset codes.
pub const OFFSET_DEFAULT_DISTRIBUTION: [i32; 29] = [
    1, 1, 1, 1, 1, 1, 2, 2, 2, 1, 1, 1, 1, 1, 1, 1, 1, 1, 1, 1, 1, 1, 1, 1, -1, -1, -1, -1, -1,
];

/// The smallest literal length that `code` stands for, and the number of
/// extra bits that are added to it.
pub open spec fn spec_ll_code(code: u8) -> (u32, u8) {
    if code < 16 {
        (code as u32, 0u8)
    } else if code < 20 {
        ((16 + 2 * (code - 16)) as u32, 1u8)
    } else if code == 20 {
        (24u32, 2u8)
    } else if code == 21 {
        (28u32, 2u8)
    } else if code == 22 {
        (32u32, 3u8)
    } else if code == 23 {
        (40u32, 3u8)
    } else if code == 24 {
        (48u32, 4u8)
    } else {
        // from 25 on: 64 with 6 bits, then doubling with one bit more
        (pow2((code - 19) as nat) as u32, (code - 19) as u8)
    }
}

/// The smallest match length that `code` stands for, and the number of
/// extra bits that are added to it.
pub open spec fn spec_ml_code(code: u8) -> (u32, u8) {
    if code < 32 {
        ((code + 3) as u32, 0u8)
    } else if code < 36 {
        ((35 + 2 * (code - 32)) as u32, 1u8)
    } else if code == 36 {
        (43u32, 2u8)
    } else if code == 37 {
        (47u32, 2u8)
    } else if code == 38 {
        (51u32, 3u8)
    } else if code == 39 {
        (59u32, 3u8)
    } else if code == 40 {
        (67u32, 4u8)
    } else if code == 41 {
        (83u32, 4u8)
    } else if code == 42 {
        (99u32, 5u8)
    } else {
        // from 43 on: 131 with 7 bits, then 3 more than a power of two
        ((pow2((code - 36) as nat) + 3) as u32, (code - 36) as u8)
    }
}

/// The table for one kind of code after the section has said how that kind
/// is compressed, and the number of bytes that saying so took.
///
/// The predefined mode takes the table of the predefined distribution; the
/// RLE mode takes one byte, the only symbol; the compressed mode takes a
/// table description; the repeat mode keeps the table `old`, and is
/// `FSEProbsInvalid` if there is none.
pub open spec fn spec_update_table(
    mode: ModeType,
    old: FSETableView,
    source: Seq<u8>,
    max_log: u8,
    default_log: u8,
    default_probs: Seq<i32>,
) -> Result<(FSETableView, usize), DecodeError> {
    match mode {
        ModeType::Predefined => match spec_build_from_probabilities(default_log, default_probs) {
            Err(e) => Err(e),
            Ok(table) => Ok((table, 0usize)),
        },
        ModeType::RLE => if source.len() < 1 {
            Err(DecodeError::ShortInput)
        } else {
            Ok((FSETable::spec_rle(source[0]), 1usize))
        },
        ModeType::FSECompressed => spec_build_decoder(source, max_log),
        ModeType::Repeat => if old.decode.len() == 0 {
            Err(DecodeError::FSEProbsInvalid)
        } else {
            Ok((old, 0usize))
        },
    }
}

/// The three tables after the section has said how each kind of code is
/// compressed, and the number of bytes that took. The literal lengths come
/// first, then the offsets, then the match lengths.
pub open spec fn spec_update_tables(modes: u8, scratch: FSEScratchView, source: Seq<u8>) -> Result<
    (FSEScratchView, usize),
    DecodeError,
> {
    match spec_update_table(
        spec_decode_mode(modes as int / 64),
        scratch.literal_lengths,
        source,
        LL_MAX_LOG,
        LL_DEFAULT_ACC_LOG,
        LITERALS_LENGTH_DEFAULT_DISTRIBUTION@,
    ) {
        Err(e) => Err(e),
        Ok((literal_lengths, ll_bytes)) => {
            let of_source = source.subrange(ll_bytes as int, source.len() as int);
            match spec_update_table(
                spec_decode_mode((modes as int / 16) % 4),
                scratch.offsets,
                of_source,
                OF_MAX_LOG,
                OF_DEFAULT_ACC_LOG,
                OFFSET_DEFAULT_DISTRIBUTION@,
            ) {
                Err(e) => Err(e),
                Ok((offsets, of_bytes)) => {
                    let ml_source = of_source.subrange(of_bytes as int, of_source.len() as int);
                    match spec_update_table(
                        spec_decode_mode((modes as int / 4) % 4),
                        scratch.match_lengths,
                        ml_source,
                        ML_MAX_LOG,
                        ML_DEFAULT_ACC_LOG,
                        MATCH_LENGTH_DEFAULT_DISTRIBUTION@,
                    ) {
                        Err(e) => Err(e),
                        Ok((match_lengths, ml_bytes)) => Ok(
                            (
                                FSEScratchView { offsets, literal_lengths, match_lengths },
                                (ll_bytes + of_bytes + ml_bytes) as usize,
                            ),
                        ),
                    }
                },
            }
        },
    }
}

/// Where the decoding of the bitstream stands: the bits left, and the
/// states of the three tables.
pub struct SequenceStates {
    pub bits: nat,
    pub ll: nat,
    pub of: nat,
    pub ml: nat,
}

/// The next state of a table whose state is `state`, and the bits left
/// after the step; `BitstreamOverrun` if too few are left.
pub open spec fn spec_step(table: FSETableView, state: nat, stream: Seq<u8>, bits: nat) -> Result<
    (nat, nat),
    DecodeError,
> {
    let cell = table.decode[state as int];
    if bits < cell.num_bits {
        Err(DecodeError::BitstreamOverrun)
    } else {
        let below = (bits - cell.num_bits) as nat;
        Ok(
            (
                (cell.base_line + bits_value(stream, below as int, cell.num_bits as nat)) as nat,
                below,
            ),
        )
    }
}

/// The three states after a sequence that is not the last: the literal
/// lengths step first, then the match lengths, then the offsets.
pub open spec fn spec_step_all(tables: FSEScratchView, stream: Seq<u8>, at: SequenceStates) -> Result<
    SequenceStates,
    DecodeError,
> {
    match spec_step(tables.literal_lengths, at.ll, stream, at.bits) {
        Err(e) => Err(e),
        Ok((ll, bits1)) => match spec_step(tables.match_lengths, at.ml, stream, bits1) {
            Err(e) => Err(e),
            Ok((ml, bits2)) => match spec_step(tables.offsets, at.of, stream, bits2) {
                Err(e) => Err(e),
                Ok((of, bits3)) => Ok(SequenceStates { bits: bits3, ll, of, ml }),
            },
        },
    }
}

/// The sequence that the three states and the next bits of the stream
/// spell, and the bits left after it.
///
/// The states name the three codes. The extra bits of the offset come
/// first, then those of the match length, then those of the literal
/// length. The offset value is `2^code` plus its extra bits. It is
/// `FSEProbsInvalid` if a state names a code that does not exist, and
/// `BitstreamOverrun` if the stream has too few bits left.
pub open spec fn spec_read_sequence(tables: FSEScratchView, stream: Seq<u8>, at: SequenceStates) -> Result<
    (Sequence, nat),
    DecodeError,
> {
    let ll_code = tables.literal_lengths.decode[at.ll as int].symbol;
    let ml_code = tables.match_lengths.decode[at.ml as int].symbol;
    let of_code = tables.offsets.decode[at.of as int].symbol;
    if ll_code > MAX_LITERAL_LENGTH_CODE || ml_code > MAX_MATCH_LENGTH_CODE || of_code
        > MAX_OFFSET_CODE {
        Err(DecodeError::FSEProbsInvalid)
    } else {
        let (ll_base, ll_bits) = spec_ll_code(ll_code);
        let (ml_base, ml_bits) = spec_ml_code(ml_code);
        if at.bits < of_code + ml_bits + ll_bits {
            Err(DecodeError::BitstreamOverrun)
        } else {
            let of_at = at.bits - of_code;
            let ml_at = of_at - ml_bits;
            let ll_at = ml_at - ll_bits;
            Ok(
                (
                    Sequence {
                        ll: (ll_base + bits_value(stream, ll_at, ll_bits as nat)) as u32,
                        ml: (ml_base + bits_value(stream, ml_at, ml_bits as nat)) as u32,
                        of: (pow2(of_code as nat) + bits_value(stream, of_at, of_code as nat)) as u32,
                    },
                    ll_at as nat,
                ),
            )
        }
    }
}

/// The sequences behind those in `out`, when `count` are still to come.
/// After the last sequence the states do not step, and the stream must be
/// used up: it is `BitstreamUnderrun` if bits are left.
pub open spec fn spec_read_sequences(
    tables: FSEScratchView,
    stream: Seq<u8>,
    at: SequenceStates,
    count: nat,
    out: Seq<Sequence>,
) -> Result<Seq<Sequence>, DecodeError>
    decreases count,
{
    if count == 0 {
        if at.bits > 0 {
            Err(DecodeError::BitstreamUnderrun)
        } else {
            Ok(out)
        }
    } else {
        match spec_read_sequence(tables, stream, at) {
            Err(e) => Err(e),
            Ok((seq, bits)) => {
                let read = SequenceStates { bits, ..at };
                if count == 1 {
                    spec_read_sequences(tables, stream, read, 0, out.push(seq))
                } else {
                    match spec_step_all(tables, stream, read) {
                        Err(e) => Err(e),
                        Ok(next) => spec_read_sequences(
                            tables,
                            stream,
                            next,
                            (count - 1) as nat,
                            out.push(seq),
                        ),
                    }
                }
            },
        }
    }
}

/// The first states: each table reads as many bits as its accuracy log
/// says; the literal lengths first, then the offsets, then the match
/// lengths.
pub open spec fn spec_first_states(tables: FSEScratchView, stream: Seq<u8>, bits: nat) -> Result<
    SequenceStates,
    DecodeError,
> {
    let ll_log = tables.literal_lengths.accuracy_log as nat;
    let of_log = tables.offsets.accuracy_log as nat;
    let ml_log = tables.match_lengths.accuracy_log as nat;
    if bits < ll_log + of_log + ml_log {
        Err(DecodeError::BitstreamOverrun)
    } else {
        let ll_at = bits - ll_log;
        let of_at = ll_at - of_log;
        let ml_at = of_at - ml_log;
        Ok(
            SequenceStates {
                bits: ml_at as nat,
                ll: bits_value(stream, ll_at, ll_log),
                of: bits_value(stream, of_at, of_log),
                ml: bits_value(stream, ml_at, ml_log),
            },
        )
    }
}

/// The sequences of a section with the header `header`, and the tables
/// after it.
///
/// A header without modes is `FSEProbsInvalid`; a stream without end mark
/// is `BitstreamOverrun`.
pub open spec fn spec_decode_sequences(
    header: SequencesHeaderView,
    source: Seq<u8>,
    scratch: FSEScratchView,
) -> Result<(Seq<Sequence>, FSEScratchView), DecodeError> {
    match header.modes {
        None => Err(DecodeError::FSEProbsInvalid),
        Some(modes) => match spec_update_tables(modes, scratch, source) {
            Err(e) => Err(e),
            Ok((tables, used)) => {
                let stream = source.subrange(used as int, source.len() as int);
                match spec_stream_bits(stream) {
                    None => Err(DecodeError::BitstreamOverrun),
                    Some(bits) => match spec_first_states(tables, stream, bits) {
                        Err(e) => Err(e),
                        Ok(first) => match spec_read_sequences(
                            tables,
                            stream,
                            first,
                            header.num_sequences as nat,
                            Seq::empty(),
                        ) {
                            Err(e) => Err(e),
                            Ok(sequences) => Ok((sequences, tables)),
                        },
                    },
                }
            },
        },
    }
}

/// The smallest literal length of a code and the number of its extra bits.
pub fn lookup_ll_code(code: u8) -> (res: (u32, u8))
    requires
        code <= MAX_LITERAL_LENGTH_CODE,
    ensures
        res == spec_ll_code(code),
        res.0 <= 65536,
        res.1 <= 16,
{
    proof {
        lemma2_to64();
    }
    if code < 16 {
        (code as u32, 0)
    } else if code < 20 {
        (16 + 2 * (code as u32 - 16), 1)
    } else if code == 20 {
        (24, 2)
    } else if code == 21 {
        (28, 2)
    } else if code == 22 {
        (32, 3)
    } else if code == 23 {
        (40, 3)
    } else if code == 24 {
        (48, 4)
    } else {
        proof {
            if code < 35 {
                lemma_pow2_strictly_increases((code - 19) as nat, 16);
            }
        }
        (pow2_u32(code as u32 - 19), code - 19)
    }
}

/// The smallest match length of a code and the number of its extra bits.
pub fn lookup_ml_code(code: u8) -> (res: (u32, u8))
    requires
        code <= MAX_MATCH_LENGTH_CODE,
    ensures
        res == spec_ml_code(code),
        res.0 <= 65539,
        res.1 <= 16,
{
    proof {
        lemma2_to64();
    }
    if code < 32 {
        (code as u32 + 3, 0)
    } else if code < 36 {
        (35 + 2 * (code as u32 - 32), 1)
    } else if code == 36 {
        (43, 2)
    } else if code == 37 {
        (47, 2)
    } else if code == 38 {
        (51, 3)
    } else if code == 39 {
        (59, 3)
    } else if code == 40 {
        (67, 4)
    } else if code == 41 {
        (83, 4)
    } else if code == 42 {
        (99, 5)
    } else {
        proof {
            if code < 52 {
                lemma_pow2_strictly_increases((code - 36) as nat, 16);
            }
        }
        (pow2_u32(code as u32 - 36) + 3, code - 36)
    }
}

/// Brings one table up to date, as [`spec_update_table`] describes. On an
/// error the table is left as it was.
fn update_table(
    mode: ModeType,
    table: &mut FSETable,
    source: &[u8],
    max_log: u8,
    default_log: u8,
    default_probs: &[i32],
) -> (res: Result<usize, DecodeError>)
    requires
        old(table).built_or_empty(),
    ensures
        match spec_update_table(mode, old(table)@, source@, max_log, default_log, default_probs@) {
            Ok((after, bytes)) => {
                &&& res == Ok::<usize, DecodeError>(bytes)
                &&& final(table)@ == after
                &&& final(table).valid()
                &&& bytes <= source@.len()
            },
            Err(e) => res == Err::<usize, DecodeError>(e) && final(table)@ == old(table)@,
        },
{
    match mode {
        ModeType::Predefined => {
            match table.build_from_probabilities(default_log, default_probs) {
                Ok(()) => Ok(0),
                Err(e) => Err(e),
            }
        },
        ModeType::RLE => {
            if source.len() < 1 {
                return Err(DecodeError::ShortInput);
            }
            table.build_rle(source[0]);
            Ok(1)
        },
        ModeType::FSECompressed => table.build_decoder(source, max_log),
        ModeType::Repeat => {
            if table.decode.len() == 0 {
                return Err(DecodeError::FSEProbsInvalid);
            }
            Ok(0)
        },
    }
}

/// Brings the three tables up to date, as [`spec_update_tables`]
/// describes.
fn maybe_update_fse_tables(modes: CompressionModes, source: &[u8], scratch: &mut FSEScratch) -> (res:
    Result<usize, DecodeError>)
    requires
        old(scratch).built_or_empty(),
    ensures
        final(scratch).built_or_empty(),
        match spec_update_tables(modes@, old(scratch)@, source@) {
            Ok((tables, bytes)) => {
                &&& res == Ok::<usize, DecodeError>(bytes)
                &&& final(scratch)@ == tables
                &&& final(scratch).literal_lengths.valid()
                &&& final(scratch).offsets.valid()
                &&& final(scratch).match_lengths.valid()
                &&& bytes <= source@.len()
            },
            Err(e) => res == Err::<usize, DecodeError>(e),
        },
{
    let ll_probs = LITERALS_LENGTH_DEFAULT_DISTRIBUTION;
    let of_probs = OFFSET_DEFAULT_DISTRIBUTION;
    let ml_probs = MATCH_LENGTH_DEFAULT_DISTRIBUTION;
    let ll_bytes: usize = match update_table(
        modes.ll_mode(),
        &mut scratch.literal_lengths,
        source,
        LL_MAX_LOG,
        LL_DEFAULT_ACC_LOG,
        vstd::array::array_as_slice(&ll_probs),
    ) {
        Ok(bytes) => bytes,
        Err(e) => {
            return Err(e);
        },
    };
    let of_source: &[u8] = &source[ll_bytes..source.len()];
    let of_bytes: usize = match update_table(
        modes.of_mode(),
        &mut scratch.offsets,
        of_source,
        OF_MAX_LOG,
        OF_DEFAULT_ACC_LOG,
        vstd::array::array_as_slice(&of_probs),
    ) {
        Ok(bytes) => bytes,
        Err(e) => {
            return Err(e);
        },
    };
    let ml_source: &[u8] = &of_source[of_bytes..of_source.len()];
    let ml_bytes: usize = match update_table(
        modes.ml_mode(),
        &mut scratch.match_lengths,
        ml_source,
        ML_MAX_LOG,
        ML_DEFAULT_ACC_LOG,
        vstd::array::array_as_slice(&ml_probs),
    ) {
        Ok(bytes) => bytes,
        Err(e) => {
            return Err(e);
        },
    };
    Ok(ll_bytes + of_bytes + ml_bytes)
}

/// Reads one sequence, as [`spec_read_sequence`] describes.
fn read_sequence(
    br: &mut BitReaderReversed<'_>,
    ll_dec: &FSEDecoder<'_>,
    of_dec: &FSEDecoder<'_>,
    ml_dec: &FSEDecoder<'_>,
) -> (res: Result<Sequence, DecodeError>)
    ensures
        final(br).source() == old(br).source(),
        match spec_read_sequence(
            FSEScratchView {
                offsets: of_dec.table(),
                literal_lengths: ll_dec.table(),
                match_lengths: ml_dec.table(),
            },
            old(br).source(),
            SequenceStates {
                bits: old(br).bits_remaining(),
                ll: ll_dec.state(),
                of: of_dec.state(),
                ml: ml_dec.state(),
            },
        ) {
            Ok((seq, bits)) => {
                &&& res == Ok::<Sequence, DecodeError>(seq)
                &&& final(br).bits_remaining() == bits
            },
            Err(e) => res == Err::<Sequence, DecodeError>(e),
        },
{
    let ll_code: u8 = ll_dec.decode_symbol();
    let ml_code: u8 = ml_dec.decode_symbol();
    let of_code: u8 = of_dec.decode_symbol();
    if ll_code > MAX_LITERAL_LENGTH_CODE || ml_code > MAX_MATCH_LENGTH_CODE || of_code
        > MAX_OFFSET_CODE {
        return Err(DecodeError::FSEProbsInvalid);
    }
    let (ll_value, ll_num_bits) = lookup_ll_code(ll_code);
    let (ml_value, ml_num_bits) = lookup_ml_code(ml_code);
    if !br.has_bits(of_code as usize + ml_num_bits as usize + ll_num_bits as usize) {
        return Err(DecodeError::BitstreamOverrun);
    }
    let ghost stream = br.source();
    let ghost bits = br.bits_remaining();
    proof {
        lemma2_to64();
        lemma_bits_value_bound(stream, bits - of_code, of_code as nat);
        lemma_bits_value_bound(stream, bits - of_code - ml_num_bits, ml_num_bits as nat);
        lemma_bits_value_bound(
            stream,
            bits - of_code - ml_num_bits - ll_num_bits,
            ll_num_bits as nat,
        );
        if of_code < 31 {
            lemma_pow2_strictly_increases(of_code as nat, 31);
        }
        if ml_num_bits < 16 {
            lemma_pow2_strictly_increases(ml_num_bits as nat, 16);
        }
        if ll_num_bits < 16 {
            lemma_pow2_strictly_increases(ll_num_bits as nat, 16);
        }
    }
    let obits: u64 = match br.get_bits(of_code as usize) {
        Ok(v) => v,
        Err(e) => {
            return Err(e);
        },
    };
    let ml_add: u64 = match br.get_bits(ml_num_bits as usize) {
        Ok(v) => v,
        Err(e) => {
            return Err(e);
        },
    };
    let ll_add: u64 = match br.get_bits(ll_num_bits as usize) {
        Ok(v) => v,
        Err(e) => {
            return Err(e);
        },
    };
    let offset: u32 = pow2_u32(of_code as u32) + obits as u32;
    Ok(Sequence { ll: ll_value + ll_add as u32, ml: ml_value + ml_add as u32, of: offset })
}

/// Steps the three states on, as [`spec_step_all`] describes.
fn step_all(
    br: &mut BitReaderReversed<'_>,
    ll_dec: &mut FSEDecoder<'_>,
    of_dec: &mut FSEDecoder<'_>,
    ml_dec: &mut FSEDecoder<'_>,
) -> (res: Result<(), DecodeError>)
    ensures
        final(br).source() == old(br).source(),
        final(ll_dec).table() == old(ll_dec).table(),
        final(of_dec).table() == old(of_dec).table(),
        final(ml_dec).table() == old(ml_dec).table(),
        match spec_step_all(
            FSEScratchView {
                offsets: old(of_dec).table(),
                literal_lengths: old(ll_dec).table(),
                match_lengths: old(ml_dec).table(),
            },
            old(br).source(),
            SequenceStates {
                bits: old(br).bits_remaining(),
                ll: old(ll_dec).state(),
                of: old(of_dec).state(),
                ml: old(ml_dec).state(),
            },
        ) {
            Ok(next) => {
                &&& res is Ok
                &&& next == (SequenceStates {
                    bits: final(br).bits_remaining(),
                    ll: final(ll_dec).state(),
                    of: final(of_dec).state(),
                    ml: final(ml_dec).state(),
                })
            },
            Err(e) => res == Err::<(), DecodeError>(e),
        },
{
    match ll_dec.update_state(br) {
        Ok(()) => {},
        Err(e) => {
            return Err(e);
        },
    }
    match ml_dec.update_state(br) {
        Ok(()) => {},
        Err(e) => {
            return Err(e);
        },
    }
    match of_dec.update_state(br) {
        Ok(()) => {},
        Err(e) => {
            return Err(e);
        },
    }
    Ok(())
}

/// Reads `count` sequences behind those in `target`, as
/// [`spec_read_sequences`] describes.
fn read_sequences(
    br: &mut BitReaderReversed<'_>,
    ll_dec: &mut FSEDecoder<'_>,
    of_dec: &mut FSEDecoder<'_>,
    ml_dec: &mut FSEDecoder<'_>,
    count: u32,
    target: &mut Vec<Sequence>,
) -> (res: Result<(), DecodeError>)
    ensures
        match spec_read_sequences(
            FSEScratchView {
                offsets: old(of_dec).table(),
                literal_lengths: old(ll_dec).table(),
                match_lengths: old(ml_dec).table(),
            },
            old(br).source(),
            SequenceStates {
                bits: old(br).bits_remaining(),
                ll: old(ll_dec).state(),
                of: old(of_dec).state(),
                ml: old(ml_dec).state(),
            },
            count as nat,
            old(target)@,
        ) {
            Ok(sequences) => res is Ok && final(target)@ == sequences,
            Err(e) => res == Err::<(), DecodeError>(e),
        },
{
    let ghost tables = FSEScratchView {
        offsets: of_dec.table(),
        literal_lengths: ll_dec.table(),
        match_lengths: ml_dec.table(),
    };
    let ghost stream = br.source();
    let ghost whole = spec_read_sequences(
        tables,
        stream,
        SequenceStates {
            bits: br.bits_remaining(),
            ll: ll_dec.state(),
            of: of_dec.state(),
            ml: ml_dec.state(),
        },
        count as nat,
        target@,
    );
    let mut left: u32 = count;
    while left > 0
        invariant
            whole == spec_read_sequences(
                FSEScratchView {
                    offsets: old(of_dec).table(),
                    literal_lengths: old(ll_dec).table(),
                    match_lengths: old(ml_dec).table(),
                },
                old(br).source(),
                SequenceStates {
                    bits: old(br).bits_remaining(),
                    ll: old(ll_dec).state(),
                    of: old(of_dec).state(),
                    ml: old(ml_dec).state(),
                },
                count as nat,
                old(target)@,
            ),
            tables == (FSEScratchView {
                offsets: of_dec.table(),
                literal_lengths: ll_dec.table(),
                match_lengths: ml_dec.table(),
            }),
            br.source() == stream,
            ll_dec.table() == tables.literal_lengths,
            of_dec.table() == tables.offsets,
            ml_dec.table() == tables.match_lengths,
            whole == spec_read_sequences(
                tables,
                stream,
                SequenceStates {
                    bits: br.bits_remaining(),
                    ll: ll_dec.state(),
                    of: of_dec.state(),
                    ml: ml_dec.state(),
                },
                left as nat,
                target@,
            ),
        decreases left,
    {
        let seq: Sequence = match read_sequence(br, &*ll_dec, &*of_dec, &*ml_dec) {
            Ok(seq) => seq,
            Err(e) => {
                return Err(e);
            },
        };
        target.push(seq);
        if left > 1 {
            match step_all(br, ll_dec, of_dec, ml_dec) {
                Ok(()) => {},
                Err(e) => {
                    return Err(e);
                },
            }
        }
        left = left - 1;
    }
    if !br.is_empty() {
        return Err(DecodeError::BitstreamUnderrun);
    }
    Ok(())
}

/// Decodes the sequences of a section into `target`, which is emptied
/// first, as [`spec_decode_sequences`] describes.
pub fn decode_sequences(
    section: &SequencesHeader,
    source: &[u8],
    scratch: &mut FSEScratch,
    target: &mut Vec<Sequence>,
) -> (res: Result<(), DecodeError>)
    requires
        old(scratch).built_or_empty(),
    ensures
        final(scratch).built_or_empty(),
        match spec_decode_sequences(section@, source@, old(scratch)@) {
            Ok((sequences, tables)) => {
                &&& res is Ok
                &&& final(target)@ == sequences
                &&& final(scratch)@ == tables
            },
            Err(e) => res == Err::<(), DecodeError>(e),
        },
{
    let modes: CompressionModes = match section.modes {
        Some(modes) => modes,
        None => {
            return Err(DecodeError::FSEProbsInvalid);
        },
    };
    let bytes_read: usize = match maybe_update_fse_tables(modes, source, scratch) {
        Ok(bytes) => bytes,
        Err(e) => {
            return Err(e);
        },
    };
    let bit_stream: &[u8] = &source[bytes_read..source.len()];
    let mut br = match BitReaderReversed::new(bit_stream) {
        Some(br) => br,
        None => {
            return Err(DecodeError::BitstreamOverrun);
        },
    };
    let ghost tables = scratch@;
    let ghost stream = bit_stream@;
    let ghost bits = br.bits_remaining();
    let mut ll_dec = FSEDecoder::new(&scratch.literal_lengths);
    let mut of_dec = FSEDecoder::new(&scratch.offsets);
    let mut ml_dec = FSEDecoder::new(&scratch.match_lengths);
    if !br.has_bits(
        scratch.literal_lengths.accuracy_log as usize + scratch.offsets.accuracy_log as usize
            + scratch.match_lengths.accuracy_log as usize,
    ) {
        return Err(DecodeError::BitstreamOverrun);
    }
    match ll_dec.init_state(&mut br) {
        Ok(()) => {},
        Err(e) => {
            return Err(e);
        },
    }
    match of_dec.init_state(&mut br) {
        Ok(()) => {},
        Err(e) => {
            return Err(e);
        },
    }
    match ml_dec.init_state(&mut br) {
        Ok(()) => {},
        Err(e) => {
            return Err(e);
        },
    }
    target.clear();
    assert(spec_first_states(tables, stream, bits) == Ok::<SequenceStates, DecodeError>(
        SequenceStates {
            bits: br.bits_remaining(),
            ll: ll_dec.state(),
            of: of_dec.state(),
            ml: ml_dec.state(),
        },
    ));
    assert(tables == (FSEScratchView {
        offsets: of_dec.table(),
        literal_lengths: ll_dec.table(),
        match_lengths: ml_dec.table(),
    }));
    read_sequences(&mut br, &mut ll_dec, &mut of_dec, &mut ml_dec, section.num_sequences, target)
}

} // verus!
