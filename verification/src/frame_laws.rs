//! What holds of the decoding of a frame however its data is cut.
//!
//! An item of a frame, once its bytes are all there, is read the same
//! whatever follows it. From this it follows that a frame can be fed to a
//! decoder in pieces, and that a frame that is cut short is refused as
//! short input.

use vstd::prelude::*;
use vstd::arithmetic::power2::lemma2_to64;
use crate::decoding::bits::{
    bits_value, lemma_bits_of_prefix, lemma_bits_value_bound, lemma_prefix_of_itself,
    lemma_rest_of_prefix, spec_is_prefix,
};
use crate::decoding::block_decoder::{
    spec_decode_block_content, spec_read_block_header, BLOCK_HEADER_SIZE,
};
use crate::decoding::block_decoder::lemma_block_keeps_hashed;
use crate::decoding::decodebuffer::spec_checksum;
use crate::decoding::dictionary::DictionaryView;
use crate::decoding::scratch::DecoderScratchView;
use crate::blocks::block::BlockHeader;
use crate::errors::{DecodeError, FrameDecoderError};
use crate::frame::{spec_frame_header_fields, spec_frame_header_len, spec_read_frame_header};
use crate::frame_decoder::{
    lemma_step_advances, spec_begin, spec_checksum_mismatch, spec_decode_all,
    spec_decode_available, spec_decode_frame, spec_output, spec_reset, spec_run, spec_short,
    spec_skip_frames, spec_step, spec_step_block, BlockDecodingStrategy, FrameStateView, Phase,
    SKIPPABLE_MAGIC_HIGH, SKIPPABLE_MAGIC_LOW,
};

verus! {

/// The content of a block is decoded the same whatever follows it.
pub proof fn lemma_block_content_stable(
    header: BlockHeader,
    scratch: DecoderScratchView,
    part: Seq<u8>,
    whole: Seq<u8>,
)
    requires
        spec_is_prefix(part, whole),
        header.content_size <= part.len(),
    ensures
        spec_decode_block_content(header, scratch, part) == spec_decode_block_content(
            header,
            scratch,
            whole,
        ),
{
    reveal(spec_decode_block_content);
    assert(part.subrange(0, header.content_size as int) =~= whole.subrange(
        0,
        header.content_size as int,
    ));
}

/// An item of a frame whose bytes are all there is read the same whatever
/// follows it: reading from the start of the data gives what reading from
/// all of it gives, unless the start ends within the item.
pub proof fn lemma_step_stable(state: FrameStateView, part: Seq<u8>, whole: Seq<u8>)
    requires
        spec_is_prefix(part, whole),
    ensures
        spec_step(state, part) == Ok::<Option<(FrameStateView, usize)>, FrameDecoderError>(None)
            || spec_step(state, part) == spec_step(state, whole),
        spec_step(state, whole) matches Ok(Some((next, used))) && used <= part.len()
            ==> spec_step(state, part) == spec_step(state, whole),
{
    lemma2_to64();
    match state.phase {
        Phase::DecodingBlocks => {
            if part.len() >= BLOCK_HEADER_SIZE {
                lemma_bits_of_prefix(part, whole, 3, 21);
                lemma_bits_value_bound(whole, 3, 21);
                assert(part[0] == whole.subrange(0, part.len() as int)[0]);
                assert(spec_read_block_header(part) == spec_read_block_header(whole));
                match spec_read_block_header(whole) {
                    Ok(header) => {
                        let used = (BLOCK_HEADER_SIZE + header.content_size) as nat;
                        if part.len() >= used {
                            let part_rest = part.subrange(
                                BLOCK_HEADER_SIZE as int,
                                part.len() as int,
                            );
                            let whole_rest = whole.subrange(
                                BLOCK_HEADER_SIZE as int,
                                whole.len() as int,
                            );
                            assert(part_rest =~= whole_rest.subrange(0, part_rest.len() as int));
                            lemma_block_content_stable(header, state.scratch, part_rest, whole_rest);
                        }
                    },
                    Err(_) => {},
                }
            } else if whole.len() >= BLOCK_HEADER_SIZE {
                lemma_bits_value_bound(whole, 3, 21);
            }
        },
        Phase::AwaitingChecksum => {
            if part.len() >= 4 {
                lemma_bits_of_prefix(part, whole, 0, 32);
            }
        },
        Phase::Done => {},
    }
}

/// Whether an error says that the data ends within an item of the frame:
/// within its header, a block header, the content of a block, or the
/// checksum.
pub open spec fn spec_is_short_input(e: FrameDecoderError) -> bool {
    ||| e == FrameDecoderError::FailedToInitialize(DecodeError::ShortInput)
    ||| e == FrameDecoderError::FailedToReadBlockHeader(DecodeError::ShortInput)
    ||| e == FrameDecoderError::FailedToReadBlockBody(DecodeError::ShortInput)
    ||| e == FrameDecoderError::FailedToReadChecksum
}

/// The blocks and the checksum of a frame that is cut short are refused
/// as short input.
pub proof fn lemma_run_truncated(state: FrameStateView, source: Seq<u8>, at: nat, cut: int)
    requires
        spec_run(state, source, at) matches Ok((done, end)) && at <= cut < end,
        cut <= source.len(),
    ensures
        spec_run(state, source.subrange(0, cut), at) matches Err(e) && spec_is_short_input(e),
    decreases source.len() - at,
{
    let part = source.subrange(0, cut);
    assert(spec_is_prefix(part, source));
    let whole_rest = source.subrange(at as int, source.len() as int);
    let part_rest = part.subrange(at as int, part.len() as int);
    lemma_rest_of_prefix(part, source, at as int);
    lemma_step_stable(state, part_rest, whole_rest);
    lemma_step_advances(state, whole_rest);
    lemma_step_advances(state, part_rest);
    match spec_step(state, whole_rest) {
        Ok(Some((next, used))) => {
            if at + used <= cut {
                lemma_run_truncated(next, source, (at + used) as nat, cut);
            }
        },
        _ => {},
    }
}

/// The skippable frames at the start of data that is cut short: either
/// they are found as in the whole data, or the data ends within them or
/// within the four bytes behind them.
pub proof fn lemma_skip_frames_prefix(part: Seq<u8>, whole: Seq<u8>, at: nat)
    requires
        spec_is_prefix(part, whole),
        at <= part.len(),
        spec_skip_frames(whole, at) is Ok,
    ensures
        match spec_skip_frames(part, at) {
            Ok(end) => {
                &&& at <= end <= part.len()
                &&& end <= spec_skip_frames(whole, at)->Ok_0
                &&& end == spec_skip_frames(whole, at)->Ok_0 || end + 4 > part.len()
            },
            Err(e) => e == DecodeError::ShortInput && part.len() < spec_skip_frames(
                whole,
                at,
            )->Ok_0,
        },
        spec_skip_frames(whole, at)->Ok_0 <= whole.len(),
        at <= spec_skip_frames(whole, at)->Ok_0,
    decreases whole.len() - at,
{
    lemma2_to64();
    lemma_prefix_of_itself(whole);
    if at + 4 <= whole.len() {
        lemma_bits_value_bound(whole, 8 * at as int, 32);
        let magic = bits_value(whole, 8 * at as int, 32);
        if !(magic < SKIPPABLE_MAGIC_LOW || magic > SKIPPABLE_MAGIC_HIGH) {
            lemma_bits_value_bound(whole, 8 * at as int + 32, 32);
            let size = bits_value(whole, 8 * at as int + 32, 32);
            let next = (at + 8 + size) as nat;
            if at + 4 <= part.len() {
                lemma_bits_of_prefix(part, whole, 8 * at as int, 32);
                if at + 8 <= part.len() {
                    lemma_bits_of_prefix(part, whole, 8 * at as int + 32, 32);
                    if next <= part.len() {
                        lemma_skip_frames_prefix(part, whole, next);
                    } else {
                        lemma_skip_frames_prefix(whole, whole, next);
                    }
                } else {
                    lemma_skip_frames_prefix(whole, whole, next);
                }
            } else {
                lemma_skip_frames_prefix(whole, whole, next);
            }
        } else if at + 4 <= part.len() {
            lemma_bits_of_prefix(part, whole, 8 * at as int, 32);
        }
    }
}

/// The header of a frame is read the same whatever follows it, and is
/// refused as short input if it is cut short.
pub proof fn lemma_frame_header_prefix(part: Seq<u8>, whole: Seq<u8>)
    requires
        spec_is_prefix(part, whole),
        spec_read_frame_header(whole) is Ok,
    ensures
        part.len() >= spec_read_frame_header(whole)->Ok_0.1 ==> spec_read_frame_header(part)
            == spec_read_frame_header(whole),
        part.len() < spec_read_frame_header(whole)->Ok_0.1 ==> spec_read_frame_header(part)
            == Err::<(crate::frame::FrameHeader, u8), DecodeError>(DecodeError::ShortInput),
        5 <= spec_read_frame_header(whole)->Ok_0.1 <= whole.len(),
{
    lemma2_to64();
    if part.len() >= 4 {
        lemma_bits_of_prefix(part, whole, 0, 32);
    }
    if part.len() >= 5 {
        assert(part[4] == whole.subrange(0, part.len() as int)[4]);
        let descriptor = whole[4];
        let len = spec_frame_header_len(descriptor);
        if part.len() >= len {
            let window_bytes = crate::frame::spec_window_bytes(descriptor);
            let dict_bytes = crate::frame::spec_dict_id_bytes((descriptor % 4) as nat);
            let size_bytes = crate::frame::spec_content_size_bytes(
                (descriptor / 64) as nat,
                crate::frame::spec_single_segment(descriptor),
            );
            let dict_at = 40 + 8 * window_bytes;
            let size_at = dict_at + 8 * dict_bytes;
            lemma_bits_of_prefix(part, whole, dict_at as int, 8 * dict_bytes);
            lemma_bits_of_prefix(part, whole, size_at as int, 8 * size_bytes);
            if window_bytes == 1 {
                assert(part[5] == whole.subrange(0, part.len() as int)[5]);
            }
            assert(spec_frame_header_fields(part) == spec_frame_header_fields(whole));
        }
    }
}

/// The start of a frame is found the same whatever follows its header,
/// and is refused as short input if the data ends before the header does.
pub proof fn lemma_reset_prefix(dicts: Seq<DictionaryView>, part: Seq<u8>, whole: Seq<u8>)
    requires
        spec_is_prefix(part, whole),
        whole.len() <= usize::MAX,
        spec_reset(dicts, whole) is Ok,
    ensures
        part.len() >= spec_reset(dicts, whole)->Ok_0.1 ==> spec_reset(dicts, part) == spec_reset(
            dicts,
            whole,
        ),
        part.len() < spec_reset(dicts, whole)->Ok_0.1 ==> spec_reset(dicts, part) == Err::<
            (FrameStateView, usize),
            FrameDecoderError,
        >(FrameDecoderError::FailedToInitialize(DecodeError::ShortInput)),
{
    lemma_skip_frames_prefix(part, whole, 0);
    let skipped = spec_skip_frames(whole, 0)->Ok_0;
    let whole_rest = whole.subrange(skipped as int, whole.len() as int);
    lemma_prefix_of_itself(whole_rest);
    lemma_frame_header_prefix(whole_rest, whole_rest);
    match spec_skip_frames(part, 0) {
        Ok(end) => {
            let part_rest = part.subrange(end as int, part.len() as int);
            if end == skipped {
                lemma_rest_of_prefix(part, whole, end as int);
                lemma_frame_header_prefix(part_rest, whole_rest);
            } else {
                assert(part_rest.len() < 4);
            }
        },
        Err(_) => {},
    }
}

/// A frame that is cut short, at whatever byte, is refused as short
/// input: if the frame at the start of `source` can be read to its end,
/// then no proper prefix of the frame is decoded, and the error says that
/// the data ends within the frame header, a block header, the content of a
/// block, or the checksum.
pub proof fn law_truncated_frame_is_short_input(dicts: Seq<DictionaryView>, source: Seq<u8>, cut: int)
    requires
        source.len() <= usize::MAX,
        spec_decode_frame(dicts, source) matches Ok((done, end)) && 0 <= cut < end,
    ensures
        spec_decode_all(dicts, source.subrange(0, cut)) matches Err(e) && spec_is_short_input(e),
{
    let part = source.subrange(0, cut);
    let (start, at) = spec_reset(dicts, source)->Ok_0;
    lemma_run_end(start, source, at as nat);
    assert(spec_is_prefix(part, source));
    lemma_reset_prefix(dicts, part, source);
    if cut >= at {
        lemma_run_truncated(start, source, at as nat, cut);
    }
}

/// Reading a frame ends within the data.
pub proof fn lemma_run_end(state: FrameStateView, source: Seq<u8>, at: nat)
    requires
        at <= source.len(),
    ensures
        spec_run(state, source, at) matches Ok((done, end)) ==> at <= end <= source.len()
            && done.phase == Phase::Done,
    decreases source.len() - at,
{
    if state.phase != Phase::Done {
        let rest = source.subrange(at as int, source.len() as int);
        lemma_step_advances(state, rest);
        match spec_step(state, rest) {
            Ok(Some((next, used))) => {
                lemma_run_end(next, source, (at + used) as nat);
            },
            _ => {},
        }
    }
}

/// A call that decodes as far as the data goes does not count its blocks.
pub proof fn lemma_available_ignores_blocks(
    state: FrameStateView,
    source: Seq<u8>,
    at: nat,
    blocks: nat,
    other: nat,
)
    ensures
        spec_decode_available(state, source, at, BlockDecodingStrategy::All, blocks)
            == spec_decode_available(state, source, at, BlockDecodingStrategy::All, other),
    decreases source.len() - at,
{
    if !(state.phase == Phase::Done || at > source.len()) {
        let rest = source.subrange(at as int, source.len() as int);
        lemma_step_advances(state, rest);
        match spec_step(state, rest) {
            Ok(Some((next, used))) => {
                lemma_available_ignores_blocks(
                    next,
                    source,
                    (at + used) as nat,
                    crate::frame_decoder::spec_count_blocks(blocks),
                    crate::frame_decoder::spec_count_blocks(other),
                );
            },
            _ => {},
        }
    }
}

/// Decoding what the start of the data holds and going on from there with
/// all of the data is decoding all of the data.
pub proof fn lemma_available_resumes(
    state: FrameStateView,
    part: Seq<u8>,
    whole: Seq<u8>,
    at: nat,
)
    requires
        spec_is_prefix(part, whole),
        at <= part.len(),
    ensures
        match spec_decode_available(state, part, at, BlockDecodingStrategy::All, 0) {
            Ok((middle, read)) => at <= read <= part.len() && spec_decode_available(
                state,
                whole,
                at,
                BlockDecodingStrategy::All,
                0,
            ) == spec_decode_available(middle, whole, read, BlockDecodingStrategy::All, 0),
            Err(e) => spec_decode_available(state, whole, at, BlockDecodingStrategy::All, 0)
                == Err::<(FrameStateView, nat), FrameDecoderError>(e),
        },
    decreases part.len() - at,
{
    if state.phase != Phase::Done {
        let part_rest = part.subrange(at as int, part.len() as int);
        let whole_rest = whole.subrange(at as int, whole.len() as int);
        lemma_rest_of_prefix(part, whole, at as int);
        lemma_step_stable(state, part_rest, whole_rest);
        lemma_step_advances(state, part_rest);
        match spec_step(state, part_rest) {
            Ok(Some((next, used))) => {
                let behind = (at + used) as nat;
                lemma_available_resumes(next, part, whole, behind);
                lemma_available_ignores_blocks(next, part, behind, 0, 1);
                lemma_available_ignores_blocks(next, whole, behind, 0, 1);
            },
            _ => {},
        }
    }
}

/// Decoding from a position within the data is decoding the data behind
/// that position from its start.
pub proof fn lemma_available_shifts(state: FrameStateView, whole: Seq<u8>, from: nat, at: nat)
    requires
        from + at <= whole.len(),
    ensures
        match spec_decode_available(
            state,
            whole.subrange(from as int, whole.len() as int),
            at,
            BlockDecodingStrategy::All,
            0,
        ) {
            Ok((after, end)) => spec_decode_available(
                state,
                whole,
                from + at,
                BlockDecodingStrategy::All,
                0,
            ) == Ok::<(FrameStateView, nat), FrameDecoderError>((after, from + end)),
            Err(e) => spec_decode_available(
                state,
                whole,
                from + at,
                BlockDecodingStrategy::All,
                0,
            ) == Err::<(FrameStateView, nat), FrameDecoderError>(e),
        },
    decreases whole.len() - from - at,
{
    let tail = whole.subrange(from as int, whole.len() as int);
    if state.phase != Phase::Done {
        let tail_rest = tail.subrange(at as int, tail.len() as int);
        let whole_rest = whole.subrange((from + at) as int, whole.len() as int);
        assert(tail_rest =~= whole_rest);
        lemma_step_advances(state, tail_rest);
        match spec_step(state, tail_rest) {
            Ok(Some((next, used))) => {
                let behind = (at + used) as nat;
                lemma_available_shifts(next, whole, from, behind);
                lemma_available_ignores_blocks(next, tail, behind, 0, 1);
                lemma_available_ignores_blocks(next, whole, from + behind, 0, 1);
            },
            _ => {},
        }
    }
}

/// Decoding is the same however the data is cut in two: if a decoder is
/// given the first part of the data, and then what it has not read of
/// the first part together with the second part, it ends in the state,
/// and so with the output, that it ends in when it is given all of the
/// data at once; and it has read as many bytes. An error comes in both
/// ways or in neither.
pub proof fn law_decoding_in_two_parts(state: FrameStateView, first: Seq<u8>, second: Seq<u8>)
    ensures
        match spec_decode_available(state, first, 0, BlockDecodingStrategy::All, 0) {
            Err(e) => spec_decode_available(
                state,
                first + second,
                0,
                BlockDecodingStrategy::All,
                0,
            ) == Err::<(FrameStateView, nat), FrameDecoderError>(e),
            Ok((middle, read)) => read <= first.len() && match spec_decode_available(
                middle,
                (first + second).subrange(read as int, (first + second).len() as int),
                0,
                BlockDecodingStrategy::All,
                0,
            ) {
                Err(e) => spec_decode_available(
                    state,
                    first + second,
                    0,
                    BlockDecodingStrategy::All,
                    0,
                ) == Err::<(FrameStateView, nat), FrameDecoderError>(e),
                Ok((end, more)) => spec_decode_available(
                    state,
                    first + second,
                    0,
                    BlockDecodingStrategy::All,
                    0,
                ) == Ok::<(FrameStateView, nat), FrameDecoderError>((end, read + more)),
            },
        },
{
    let whole = first + second;
    assert(first =~= whole.subrange(0, first.len() as int));
    lemma_available_resumes(state, first, whole, 0);
    match spec_decode_available(state, first, 0, BlockDecodingStrategy::All, 0) {
        Ok((middle, read)) => {
            lemma_available_shifts(middle, whole, read, 0);
        },
        Err(_) => {},
    }
}

/// A decoder that is given all of a frame piece by piece or at once ends
/// where the decoder ends that reads the frame from its header to its end:
/// what can be read to the end is read to the same end, in the same state,
/// by a call that decodes as far as the data goes.
pub proof fn law_streaming_reaches_the_end(state: FrameStateView, source: Seq<u8>, at: nat)
    requires
        spec_run(state, source, at) is Ok,
    ensures
        spec_decode_available(state, source, at, BlockDecodingStrategy::All, 0) == spec_run(
            state,
            source,
            at,
        ),
    decreases source.len() - at,
{
    if state.phase != Phase::Done && at <= source.len() {
        let rest = source.subrange(at as int, source.len() as int);
        lemma_step_advances(state, rest);
        match spec_step(state, rest) {
            Ok(Some((next, used))) => {
                let behind = (at + used) as nat;
                law_streaming_reaches_the_end(next, source, behind);
                lemma_available_ignores_blocks(next, source, behind, 0, 1);
            },
            _ => {},
        }
    }
}

/// A frame is started the same whatever follows its header: a decoder
/// that finds the start of a frame in the first part of the data finds the
/// same start in all of the data.
pub proof fn law_frame_starts_in_first_part(
    dicts: Seq<DictionaryView>,
    first: Seq<u8>,
    second: Seq<u8>,
)
    requires
        (first + second).len() <= usize::MAX,
        spec_begin(None, dicts, first + second) is Ok,
    ensures
        spec_begin(None, dicts, first) == Ok::<
            Option<(FrameStateView, usize)>,
            FrameDecoderError,
        >(None) || spec_begin(None, dicts, first) == spec_begin(None, dicts, first + second),
{
    let whole = first + second;
    assert(first =~= whole.subrange(0, first.len() as int));
    if spec_reset(dicts, whole) is Ok {
        lemma_reset_prefix(dicts, first, whole);
    } else {
        // the whole data ends within the frame header: so does its first part
        lemma_short_header_stays_short(dicts, first, whole);
    }
}

/// Data that ends within a frame header has no prefix that holds a frame
/// header, or is refused for another reason.
pub proof fn lemma_short_header_stays_short(
    dicts: Seq<DictionaryView>,
    part: Seq<u8>,
    whole: Seq<u8>,
)
    requires
        spec_is_prefix(part, whole),
        spec_reset(dicts, whole) == Err::<(FrameStateView, usize), FrameDecoderError>(
            FrameDecoderError::FailedToInitialize(DecodeError::ShortInput),
        ),
    ensures
        spec_reset(dicts, part) == Err::<(FrameStateView, usize), FrameDecoderError>(
            FrameDecoderError::FailedToInitialize(DecodeError::ShortInput),
        ),
{
    lemma_skip_frames_short(part, whole, 0);
    match spec_skip_frames(whole, 0) {
        Ok(skipped) => {
            match spec_skip_frames(part, 0) {
                Ok(end) => {
                    let part_rest = part.subrange(end as int, part.len() as int);
                    let whole_rest = whole.subrange(skipped as int, whole.len() as int);
                    if end == skipped {
                        lemma_rest_of_prefix(part, whole, end as int);
                        lemma_short_frame_header_stays_short(part_rest, whole_rest);
                    } else {
                        assert(part_rest.len() < 4);
                    }
                },
                Err(_) => {},
            }
        },
        Err(_) => {},
    }
}

/// See [`lemma_skip_frames_prefix`]: the same for data that may itself
/// end within a skippable frame.
pub proof fn lemma_skip_frames_short(part: Seq<u8>, whole: Seq<u8>, at: nat)
    requires
        spec_is_prefix(part, whole),
        at <= part.len(),
    ensures
        match spec_skip_frames(part, at) {
            Ok(end) => {
                &&& at <= end <= part.len()
                &&& spec_skip_frames(whole, at) == Ok::<nat, DecodeError>(end) || end + 4
                    > part.len()
            },
            Err(e) => e == DecodeError::ShortInput,
        },
        spec_skip_frames(whole, at) matches Err(e) ==> e == DecodeError::ShortInput,
    decreases whole.len() - at,
{
    lemma2_to64();
    lemma_prefix_of_itself(whole);
    if at + 4 <= whole.len() {
        lemma_bits_value_bound(whole, 8 * at as int, 32);
        let magic = bits_value(whole, 8 * at as int, 32);
        if !(magic < SKIPPABLE_MAGIC_LOW || magic > SKIPPABLE_MAGIC_HIGH) {
            if at + 8 <= whole.len() {
                lemma_bits_value_bound(whole, 8 * at as int + 32, 32);
                let size = bits_value(whole, 8 * at as int + 32, 32);
                let next = (at + 8 + size) as nat;
                if next <= whole.len() {
                    if at + 4 <= part.len() {
                        lemma_bits_of_prefix(part, whole, 8 * at as int, 32);
                        if at + 8 <= part.len() {
                            lemma_bits_of_prefix(part, whole, 8 * at as int + 32, 32);
                            if next <= part.len() {
                                lemma_skip_frames_short(part, whole, next);
                            } else {
                                lemma_skip_frames_short(whole, whole, next);
                            }
                        } else {
                            lemma_skip_frames_short(whole, whole, next);
                        }
                    } else {
                        lemma_skip_frames_short(whole, whole, next);
                    }
                } else if at + 4 <= part.len() {
                    lemma_bits_of_prefix(part, whole, 8 * at as int, 32);
                    if at + 8 <= part.len() {
                        lemma_bits_of_prefix(part, whole, 8 * at as int + 32, 32);
                    }
                }
            } else if at + 4 <= part.len() {
                lemma_bits_of_prefix(part, whole, 8 * at as int, 32);
            }
        } else if at + 4 <= part.len() {
            lemma_bits_of_prefix(part, whole, 8 * at as int, 32);
        }
    }
}

/// A frame header that is short stays short when it is cut.
pub proof fn lemma_short_frame_header_stays_short(part: Seq<u8>, whole: Seq<u8>)
    requires
        spec_is_prefix(part, whole),
        spec_read_frame_header(whole) == Err::<(crate::frame::FrameHeader, u8), DecodeError>(
            DecodeError::ShortInput,
        ),
    ensures
        spec_read_frame_header(part) == Err::<(crate::frame::FrameHeader, u8), DecodeError>(
            DecodeError::ShortInput,
        ),
{
    lemma2_to64();
    if part.len() >= 4 {
        lemma_bits_of_prefix(part, whole, 0, 32);
    }
    if part.len() >= 5 {
        assert(part[4] == whole.subrange(0, part.len() as int)[4]);
    }
}

/// Whether the checksums of a state are what the phase of the state asks
/// for: none before the frame is decoded; then the checksum of the output
/// and, if the header says that the frame ends with one, the checksum of
/// the frame.
pub open spec fn spec_checksums_in_order(state: FrameStateView) -> bool {
    &&& state.scratch.buffer.hash_seed == 0
    &&& state.phase != Phase::Done ==> state.check_sum is None && state.calculated is None
    &&& state.phase == Phase::AwaitingChecksum ==> state.header.content_checksum
    &&& state.phase == Phase::Done ==> {
        &&& state.calculated == Some(spec_checksum(0, spec_output(state.scratch.buffer)))
        &&& state.header.content_checksum <==> state.check_sum is Some
    }
}

/// Reading an item of a frame keeps the checksums in order.
pub proof fn lemma_step_keeps_checksums(state: FrameStateView, rest: Seq<u8>)
    requires
        spec_checksums_in_order(state),
    ensures
        spec_step(state, rest) matches Ok(Some((next, used))) ==> spec_checksums_in_order(next)
            && next.header == state.header,
{
    if state.phase == Phase::DecodingBlocks && rest.len() >= BLOCK_HEADER_SIZE {
        match spec_read_block_header(rest) {
            Ok(header) => {
                lemma_block_keeps_hashed(
                    header,
                    state.scratch,
                    rest.subrange(BLOCK_HEADER_SIZE as int, rest.len() as int),
                );
            },
            Err(_) => {},
        }
    }
}

/// Reading a frame to its end keeps the checksums in order.
pub proof fn lemma_run_keeps_checksums(state: FrameStateView, source: Seq<u8>, at: nat)
    requires
        spec_checksums_in_order(state),
    ensures
        spec_run(state, source, at) matches Ok((done, end)) ==> spec_checksums_in_order(done)
            && done.phase == Phase::Done && done.header == state.header,
    decreases source.len() - at,
{
    if state.phase != Phase::Done && at <= source.len() {
        let rest = source.subrange(at as int, source.len() as int);
        lemma_step_advances(state, rest);
        lemma_step_keeps_checksums(state, rest);
        match spec_step(state, rest) {
            Ok(Some((next, used))) => {
                lemma_run_keeps_checksums(next, source, (at + used) as nat);
            },
            _ => {},
        }
    }
}

/// After a frame is decoded, the checksum that the decoder has calculated
/// is the checksum of the output, and if the frame carries a checksum, the
/// two are the same.
pub proof fn law_checksums_agree(dicts: Seq<DictionaryView>, source: Seq<u8>)
    requires
        spec_decode_all(dicts, source) is Ok,
    ensures
        spec_decode_frame(dicts, source) matches Ok((done, end)) && {
            &&& done.calculated == Some(spec_checksum(0, spec_decode_all(dicts, source)->Ok_0))
            &&& done.header.content_checksum ==> done.check_sum == done.calculated
        },
{
    let (start, at) = spec_reset(dicts, source)->Ok_0;
    lemma_run_keeps_checksums(start, source, at as nat);
}

} // verus!
