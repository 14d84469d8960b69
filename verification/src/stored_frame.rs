//! The simplest frame that holds given bytes: a frame of one raw block.
//!
//! Such a frame is what an encoder emits when it does not compress. That
//! the decoder gives the bytes back is proved here for every content of up
//! to 128 KiB.

use vstd::prelude::*;
use vstd::arithmetic::power2::{pow2, lemma2_to64};
use crate::blocks::block::{BlockHeader, BlockType};
use crate::decoding::bits::{
    bits_value, lemma_bits_in_byte, lemma_bits_value_bound, lemma_bits_value_split,
};
use crate::decoding::block_decoder::{
    law_raw_block, spec_read_block_header, ABSOLUTE_MAXIMUM_BLOCK_SIZE, BLOCK_HEADER_SIZE,
};
use crate::decoding::decodebuffer::{spec_fresh, spec_push};
use crate::decoding::dictionary::DictionaryView;
use crate::decoding::scratch::{spec_fresh_scratch, DecoderScratchView};
use crate::errors::{DecodeError, FrameDecoderError};
use crate::frame::{
    spec_frame_header_fields, spec_frame_header_len, spec_read_frame_header, FrameHeader,
    MAGIC_NUM,
};
use crate::frame_decoder::{
    spec_buffer_window, spec_decode_all, spec_decode_frame, spec_output, spec_reset, spec_run,
    spec_skip_frames, spec_start, spec_step, spec_step_block, FrameStateView, Phase,
};

verus! {

/// Byte `index` of the number `value` when it is written least significant
/// byte first, for the first four bytes.
pub open spec fn spec_le_byte(value: nat, index: nat) -> u8 {
    if index == 0 {
        (value % 0x100) as u8
    } else if index == 1 {
        ((value / 0x100) % 0x100) as u8
    } else if index == 2 {
        ((value / 0x1_0000) % 0x100) as u8
    } else {
        ((value / 0x100_0000) % 0x100) as u8
    }
}

/// The header of the frame of one raw block that holds `size` bytes: the
/// magic number; a descriptor that announces one segment with a content
/// size of four bytes, and neither dictionary nor checksum; the content
/// size.
pub open spec fn spec_stored_frame_header(size: nat) -> Seq<u8> {
    seq![
        0x28u8,
        0xB5u8,
        0x2Fu8,
        0xFDu8,
        0xA0u8,
        spec_le_byte(size, 0),
        spec_le_byte(size, 1),
        spec_le_byte(size, 2),
        spec_le_byte(size, 3),
    ]
}

/// The header of a raw block of `size` bytes that is the last of its
/// frame.
pub open spec fn spec_stored_block_header(size: nat) -> Seq<u8> {
    let block = 1 + 8 * size;
    seq![spec_le_byte(block, 0), spec_le_byte(block, 1), spec_le_byte(block, 2)]
}

/// The frame of one raw block that holds `content`: the frame header, the
/// block header, the content.
pub open spec fn spec_stored_frame(content: Seq<u8>) -> Seq<u8> {
    spec_stored_frame_header(content.len()) + spec_stored_block_header(content.len()) + content
}

/// Four bytes spell the number whose bytes they are.
pub proof fn lemma_four_bytes(data: Seq<u8>, at: int)
    requires
        0 <= at,
        at + 4 <= data.len(),
    ensures
        bits_value(data, 8 * at, 32) == data[at] + data[at + 1] * 0x100 + data[at + 2] * 0x1_0000
            + data[at + 3] * 0x100_0000,
{
    lemma2_to64();
    lemma_bits_value_split(data, 8 * at, 8, 24);
    lemma_bits_value_split(data, 8 * at + 8, 8, 16);
    lemma_bits_value_split(data, 8 * at + 16, 8, 8);
    lemma_bits_in_byte(data, at, 0, 8);
    lemma_bits_in_byte(data, at + 1, 0, 8);
    lemma_bits_in_byte(data, at + 2, 0, 8);
    lemma_bits_in_byte(data, at + 3, 0, 8);
}

/// The state at the start of the frame of one raw block that holds `size`
/// bytes.
pub open spec fn spec_stored_start(size: nat) -> FrameStateView {
    spec_start(
        FrameHeader {
            single_segment: true,
            content_checksum: false,
            window_size: size as u64,
            dict_id: None,
            content_size: Some(size as u64),
        },
        9,
        None,
    )
}

/// The header of a frame of one raw block is read as what it was made
/// from.
proof fn lemma_stored_frame_starts(dicts: Seq<DictionaryView>, frame: Seq<u8>, size: nat)
    requires
        size <= ABSOLUTE_MAXIMUM_BLOCK_SIZE,
        frame.len() >= 9,
        frame.subrange(0, 9) == spec_stored_frame_header(size),
    ensures
        spec_reset(dicts, frame) == Ok::<(FrameStateView, usize), FrameDecoderError>(
            (spec_stored_start(size), 9usize),
        ),
{
    lemma2_to64();
    let head = spec_stored_frame_header(size);
    assert forall|i: int| 0 <= i < 9 implies frame[i] == head[i] by {
        assert(frame.subrange(0, 9)[i] == frame[i]);
    }
    lemma_four_bytes(frame, 0);
    assert(bits_value(frame, 0, 32) == MAGIC_NUM);
    assert(spec_skip_frames(frame, 0) == Ok::<nat, DecodeError>(0));
    assert(frame.subrange(0, frame.len() as int) =~= frame);
    lemma_four_bytes(frame, 5);
    assert(frame[4] == 0xA0u8);
    assert(spec_frame_header_len(0xA0) == 9);
    assert(bits_value(frame, 40, 0) == 0);
    assert(bits_value(frame, 40, 32) == size);
}

/// The block of a frame of one raw block is read as what it was made
/// from: it puts out its content and ends the frame.
proof fn lemma_stored_block_is_read(rest: Seq<u8>, content: Seq<u8>)
    requires
        content.len() <= ABSOLUTE_MAXIMUM_BLOCK_SIZE,
        rest == spec_stored_block_header(content.len()) + content,
    ensures
        spec_step(spec_stored_start(content.len()), rest) matches Ok(Some((done, used))) && {
            &&& used == 3 + content.len()
            &&& done.phase == Phase::Done
            &&& done.check_sum is None
            &&& spec_output(done.scratch.buffer) == content
        },
{
    lemma2_to64();
    let size = content.len();
    let start = spec_stored_start(size);
    let block = (1 + 8 * size) as nat;
    assert(rest[0] == spec_le_byte(block, 0));
    assert(rest[1] == spec_le_byte(block, 1));
    assert(rest[2] == spec_le_byte(block, 2));
    lemma_bits_value_split(rest, 0, 3, 21);
    lemma_bits_value_split(rest, 0, 8, 16);
    lemma_bits_value_split(rest, 8, 8, 8);
    lemma_bits_in_byte(rest, 0, 0, 8);
    lemma_bits_in_byte(rest, 1, 0, 8);
    lemma_bits_in_byte(rest, 2, 0, 8);
    lemma_bits_in_byte(rest, 0, 0, 3);
    assert(bits_value(rest, 0, 24) == block);
    assert(bits_value(rest, 0, 3) == 1);
    assert(bits_value(rest, 3, 21) == size);
    let block_header = BlockHeader {
        last_block: true,
        block_type: BlockType::Raw,
        decompressed_size: size as u32,
        content_size: size as u32,
    };
    assert(spec_read_block_header(rest) == Ok::<BlockHeader, DecodeError>(block_header));
    let behind = rest.subrange(BLOCK_HEADER_SIZE as int, rest.len() as int);
    assert(behind =~= content);
    assert(behind.subrange(0, size as int) =~= content);
    law_raw_block(block_header, start.scratch, behind);
    assert(spec_push(start.scratch.buffer, content).buffer =~= content);
    assert(spec_output(spec_push(start.scratch.buffer, content)) =~= content);
}

/// The decoder gives back what a frame of one raw block holds: for every
/// content of up to 128 KiB there is a frame that decodes to it, whatever
/// dictionaries the decoder has.
pub proof fn law_stored_frame_round_trip(dicts: Seq<DictionaryView>, content: Seq<u8>)
    requires
        content.len() <= ABSOLUTE_MAXIMUM_BLOCK_SIZE,
    ensures
        spec_decode_all(dicts, spec_stored_frame(content)) == Ok::<Seq<u8>, FrameDecoderError>(
            content,
        ),
{
    let frame = spec_stored_frame(content);
    let size = content.len();
    let start = spec_stored_start(size);
    assert(frame.subrange(0, 9) =~= spec_stored_frame_header(size));
    lemma_stored_frame_starts(dicts, frame, size);
    let rest = frame.subrange(9, frame.len() as int);
    assert(rest =~= spec_stored_block_header(size) + content);
    lemma_stored_block_is_read(rest, content);
    let done = spec_step(start, rest)->Ok_0->Some_0.0;
    let end = (12 + size) as nat;
    assert(spec_run(done, frame, end) == Ok::<(FrameStateView, nat), FrameDecoderError>(
        (done, end),
    ));
    assert(spec_run(start, frame, 9) == spec_run(done, frame, end));
}

} // verus!
