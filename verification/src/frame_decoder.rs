//! Decoding a frame: its header, its blocks one after the other, and the
//! checksum behind the last block.

use vstd::prelude::*;
use vstd::arithmetic::power2::lemma2_to64;
use crate::blocks::block::{BlockHeader, BlockType};
use crate::decoding::bits::{bits_value, extract_bits, lemma_bits_value_bound};
use crate::decoding::block_decoder::{
    decode_block_content, read_block_header, spec_decode_block_content, spec_read_block_header,
    BLOCK_HEADER_SIZE,
};
use crate::decoding::decodebuffer::{
    spec_can_drain_to_window_size, spec_checksum, spec_drained, spec_read_amount, DecodebufferView,
};
use crate::decoding::block_decoder::lemma_block_keeps_hashed;
use crate::decoding::dictionary::{spec_decode_dict, Dictionary, DictionaryView};
use crate::decoding::scratch::{
    spec_fresh_scratch, spec_scratch_with_dict, DecoderScratch, DecoderScratchView,
};
use crate::errors::{DecodeError, FrameDecoderError};
use crate::frame::{read_frame_header, spec_read_frame_header, FrameHeader, MIN_WINDOW_SIZE};

verus! {

/// How far the decoding of a frame has come.
#[derive(Debug, Copy, Clone, PartialEq, Eq, Structural)]
pub enum Phase {
    /// Blocks are still to come.
    DecodingBlocks,
    /// The last block is decoded; the checksum is still to come.
    AwaitingChecksum,
    /// The frame is decoded.
    Done,
}

/// The state of the decoding of one frame.
pub struct FrameState {
    header: FrameHeader,
    scratch: DecoderScratch,
    phase: Phase,
    block_counter: u64,
    bytes_read_counter: u64,
    check_sum: Option<u32>,
    calculated: Option<u32>,
}

/// The state of the decoding of one frame, as plain values.
pub struct FrameStateView {
    pub header: FrameHeader,
    pub scratch: DecoderScratchView,
    pub phase: Phase,
    /// The number of blocks decoded.
    pub block_counter: u64,
    /// The number of bytes of the frame that have been read.
    pub bytes_read_counter: u64,
    /// The checksum that the frame ends with.
    pub check_sum: Option<u32>,
    /// The checksum of the output, known when the frame is decoded.
    pub calculated: Option<u32>,
}

impl View for FrameState {
    type V = FrameStateView;

    closed spec fn view(&self) -> FrameStateView {
        FrameStateView {
            header: self.header,
            scratch: self.scratch@,
            phase: self.phase,
            block_counter: self.block_counter,
            bytes_read_counter: self.bytes_read_counter,
            check_sum: self.check_sum,
            calculated: self.calculated,
        }
    }
}

/// The window that the buffer of a frame is made with: what the header
/// says, but at least 1 KiB.
pub open spec fn spec_buffer_window(header: FrameHeader) -> usize {
    if header.window_size < MIN_WINDOW_SIZE {
        MIN_WINDOW_SIZE as usize
    } else {
        header.window_size as usize
    }
}

/// A counter that counts as far as a `u64` goes and stays there.
pub open spec fn spec_count_up(counter: u64, amount: nat) -> u64 {
    if counter + amount > u64::MAX {
        u64::MAX
    } else {
        (counter + amount) as u64
    }
}

/// The state at the start of a frame with the header `header`, of which
/// `header_len` bytes have been read, and the dictionary `dict` if it uses
/// one.
pub open spec fn spec_start(header: FrameHeader, header_len: nat, dict: Option<DictionaryView>) -> FrameStateView {
    FrameStateView {
        header,
        scratch: match dict {
            Some(dict) => spec_scratch_with_dict(spec_buffer_window(header), dict),
            None => spec_fresh_scratch(spec_buffer_window(header)),
        },
        phase: Phase::DecodingBlocks,
        block_counter: 0,
        bytes_read_counter: header_len as u64,
        check_sum: None,
        calculated: None,
    }
}

/// All the output of the frame so far: what has left the buffer and what
/// is still in it.
pub open spec fn spec_output(buffer: DecodebufferView) -> Seq<u8> {
    buffer.hashed + buffer.buffer
}

/// The state after the last item of the frame has been read: the frame is
/// decoded, and the checksum of its output is known. It is
/// `FailedToDrainDecodebuffer` if the output is longer than a checksum can
/// count.
pub open spec fn spec_finish(state: FrameStateView, check_sum: Option<u32>, used: nat) -> Result<
    Option<(FrameStateView, usize)>,
    FrameDecoderError,
> {
    if spec_output(state.scratch.buffer).len() > u64::MAX {
        Err(FrameDecoderError::FailedToDrainDecodebuffer)
    } else {
        Ok(
            Some(
                (
                    FrameStateView {
                        phase: Phase::Done,
                        check_sum,
                        calculated: Some(
                            spec_checksum(
                                state.scratch.buffer.hash_seed,
                                spec_output(state.scratch.buffer),
                            ),
                        ),
                        bytes_read_counter: spec_count_up(state.bytes_read_counter, used),
                        ..state
                    },
                    used as usize,
                ),
            ),
        )
    }
}

/// The size that the header of a block gives: the size of the content,
/// or of the output for an RLE block.
pub open spec fn spec_block_size(header: BlockHeader) -> u32 {
    if header.block_type == BlockType::RLE {
        header.decompressed_size
    } else {
        header.content_size
    }
}

/// The state after the block at the start of `rest` has been decoded, and
/// the number of bytes of the block; `None` if `rest` ends before the
/// block does. An error of the block header is a
/// `FailedToReadBlockHeader`, one of the content a `FailedToReadBlockBody`.
/// A block that is larger than the window of its frame has a corrupted
/// header.
pub open spec fn spec_step_block(state: FrameStateView, rest: Seq<u8>) -> Result<
    Option<(FrameStateView, usize)>,
    FrameDecoderError,
> {
    if rest.len() < BLOCK_HEADER_SIZE {
        Ok(None)
    } else {
        match spec_read_block_header(rest) {
            Err(e) => Err(FrameDecoderError::FailedToReadBlockHeader(e)),
            Ok(header) => {
                let used = (BLOCK_HEADER_SIZE + header.content_size) as nat;
                if spec_block_size(header) > state.header.window_size {
                    Err(
                        FrameDecoderError::FailedToReadBlockHeader(
                            DecodeError::CorruptedBlockHeader,
                        ),
                    )
                } else if rest.len() < used {
                    Ok(None)
                } else {
                    match spec_decode_block_content(
                        header,
                        state.scratch,
                        rest.subrange(BLOCK_HEADER_SIZE as int, rest.len() as int),
                    ) {
                        Err(e) => Err(FrameDecoderError::FailedToReadBlockBody(e)),
                        Ok(scratch) => {
                            let decoded = FrameStateView {
                                scratch,
                                block_counter: spec_count_up(state.block_counter, 1),
                                ..state
                            };
                            if !header.last_block {
                                Ok(
                                    Some(
                                        (
                                            FrameStateView {
                                                bytes_read_counter: spec_count_up(
                                                    state.bytes_read_counter,
                                                    used,
                                                ),
                                                ..decoded
                                            },
                                            used as usize,
                                        ),
                                    ),
                                )
                            } else if state.header.content_checksum {
                                Ok(
                                    Some(
                                        (
                                            FrameStateView {
                                                phase: Phase::AwaitingChecksum,
                                                bytes_read_counter: spec_count_up(
                                                    state.bytes_read_counter,
                                                    used,
                                                ),
                                                ..decoded
                                            },
                                            used as usize,
                                        ),
                                    ),
                                )
                            } else {
                                spec_finish(decoded, None, used)
                            }
                        },
                    }
                }
            },
        }
    }
}

/// The state after the next item of the frame, which starts at the start
/// of `rest`, has been read, and the number of bytes of the item; `None`
/// if `rest` ends before the item does, or if the frame is decoded.
///
/// The items of a frame are its blocks and, if the header says so, behind
/// the last block a checksum of four bytes.
pub open spec fn spec_step(state: FrameStateView, rest: Seq<u8>) -> Result<
    Option<(FrameStateView, usize)>,
    FrameDecoderError,
> {
    match state.phase {
        Phase::DecodingBlocks => spec_step_block(state, rest),
        Phase::AwaitingChecksum => if rest.len() < 4 {
            Ok(None)
        } else {
            spec_finish(state, Some(bits_value(rest, 0, 32) as u32), 4)
        },
        Phase::Done => Ok(None),
    }
}

impl FrameState {
    /// Whether the entropy tables are in order and, once the frame is
    /// decoded, the checksum of its output is known.
    pub closed spec fn well_formed(&self) -> bool {
        &&& self.scratch.built_or_empty()
        &&& self.phase == Phase::Done ==> {
            &&& spec_output(self.scratch@.buffer).len() <= u64::MAX
            &&& self.calculated is Some
        }
    }

    /// Reads all items of the frame from byte `start` of `source` on, as
    /// [`spec_run`] describes, and returns the position behind the last.
    pub(crate) fn run(&mut self, source: &[u8], start: usize) -> (res: Result<usize, FrameDecoderError>)
        requires
            old(self).well_formed(),
            start <= source@.len(),
        ensures
            final(self).well_formed(),
            match spec_run(old(self)@, source@, start as nat) {
                Ok((done, end)) => {
                    &&& res == Ok::<usize, FrameDecoderError>(end as usize)
                    &&& final(self)@ == done
                    &&& done.phase == Phase::Done
                    &&& end <= source@.len()
                },
                Err(e) => res == Err::<usize, FrameDecoderError>(e),
            },
    {
        let mut at: usize = start;
        while self.phase != Phase::Done
            invariant
                self.well_formed(),
                at <= source@.len(),
                spec_run(old(self)@, source@, start as nat) == spec_run(
                    self@,
                    source@,
                    at as nat,
                ),
            decreases source@.len() - at,
        {
            let rest: &[u8] = &source[at..source.len()];
            let ghost before = self@;
            assert(spec_run(before, source@, at as nat) == match spec_step(before, rest@) {
                Err(e) => Err::<(FrameStateView, nat), FrameDecoderError>(e),
                Ok(None) => Err(spec_short(before.phase, rest@.len())),
                Ok(Some((next, used))) => spec_run(next, source@, (at + used) as nat),
            });
            match self.step(rest) {
                Ok(Some(used)) => {
                    at = at + used;
                },
                Ok(None) => {
                    return Err(
                        match self.phase {
                            Phase::AwaitingChecksum => FrameDecoderError::FailedToReadChecksum,
                            _ => if rest.len() < BLOCK_HEADER_SIZE {
                                FrameDecoderError::FailedToReadBlockHeader(DecodeError::ShortInput)
                            } else {
                                FrameDecoderError::FailedToReadBlockBody(DecodeError::ShortInput)
                            },
                        },
                    );
                },
                Err(e) => {
                    return Err(e);
                },
            }
        }
        Ok(at)
    }

    /// Reads the items of the frame from byte `start` of `source` on that
    /// `source` holds completely, as [`spec_decode_available`] describes,
    /// and returns the position behind the last.
    pub(crate) fn decode_available(
        &mut self,
        source: &[u8],
        start: usize,
        strategy: BlockDecodingStrategy,
    ) -> (res: Result<usize, FrameDecoderError>)
        requires
            old(self).well_formed(),
            start <= source@.len(),
        ensures
            final(self).well_formed(),
            match spec_decode_available(old(self)@, source@, start as nat, strategy, 0) {
                Ok((after, end)) => {
                    &&& res == Ok::<usize, FrameDecoderError>(end as usize)
                    &&& final(self)@ == after
                    &&& start <= end <= source@.len()
                },
                Err(e) => res == Err::<usize, FrameDecoderError>(e),
            },
    {
        let mut at: usize = start;
        let mut blocks: usize = 0;
        let mut more: bool = true;
        while more
            invariant
                self.well_formed(),
                start <= at <= source@.len(),
                more ==> spec_decode_available(old(self)@, source@, start as nat, strategy, 0)
                    == spec_decode_available(self@, source@, at as nat, strategy, blocks as nat),
                !more ==> spec_decode_available(old(self)@, source@, start as nat, strategy, 0)
                    == Ok::<(FrameStateView, nat), FrameDecoderError>((self@, at as nat)),
            decreases source@.len() - at + (if more { 1nat } else { 0nat }),
        {
            let satisfied: bool = match strategy {
                BlockDecodingStrategy::All => false,
                BlockDecodingStrategy::UptoBlocks(n) => blocks >= n,
                BlockDecodingStrategy::UptoBytes(n) => self.scratch.buffer.len() >= n,
            };
            if self.phase == Phase::Done || (self.phase == Phase::DecodingBlocks && satisfied) {
                more = false;
            } else {
                let rest: &[u8] = &source[at..source.len()];
                match self.step(rest) {
                    Ok(Some(used)) => {
                        at = at + used;
                        blocks = blocks.saturating_add(1);
                    },
                    Ok(None) => {
                        more = false;
                    },
                    Err(e) => {
                        return Err(e);
                    },
                }
            }
        }
        Ok(at)
    }

    /// The number of bytes that can leave the buffer now: all that is
    /// buffered once the last block is decoded, what exceeds the window
    /// before.
    pub(crate) fn can_collect(&self) -> (res: usize)
        ensures
            res == spec_can_collect(self@),
    {
        if self.phase == Phase::DecodingBlocks {
            match self.scratch.buffer.can_drain_to_window_size() {
                Some(amount) => amount,
                None => 0,
            }
        } else {
            self.scratch.buffer.can_drain()
        }
    }

    /// Whether the checksum can take in all that is buffered.
    fn can_hash_buffered(&self) -> (res: bool)
        requires
            self.well_formed(),
        ensures
            res <==> spec_output(self@.scratch.buffer).len() <= u64::MAX,
    {
        let hashed: u64 = self.scratch.buffer.hashed_len();
        let buffered: usize = self.scratch.buffer.len();
        hashed <= u64::MAX - buffered as u64
    }

    /// Takes out of the buffer what can leave it now. It is
    /// `FailedToDrainDecodebuffer`, and nothing leaves, if the output is
    /// longer than a checksum can count.
    pub(crate) fn collect(&mut self) -> (res: Result<Vec<u8>, FrameDecoderError>)
        requires
            old(self).well_formed(),
        ensures
            final(self).well_formed(),
            match spec_collect(old(self)@, usize::MAX as nat) {
                Ok((after, out)) => res matches Ok(got) && got@ == out && final(self)@ == after,
                Err(e) => res matches Err(got) && got == e && final(self)@ == old(self)@,
            },
    {
        if !self.can_hash_buffered() {
            return Err(FrameDecoderError::FailedToDrainDecodebuffer);
        }
        let buffered: usize = self.scratch.buffer.len();
        let out: Vec<u8> = if self.phase == Phase::DecodingBlocks {
            match self.scratch.buffer.drain_to_window_size() {
                Some(out) => out,
                None => {
                    let out: Vec<u8> = Vec::new();
                    let ghost buffer = self@.scratch.buffer;
                    assert(buffer.buffer.subrange(0, 0) =~= out@);
                    assert(buffer.buffer.subrange(0, buffer.buffer.len() as int) =~= buffer.buffer);
                    assert(buffer.hashed + out@ =~= buffer.hashed);
                    assert(spec_drained(buffer, 0) == buffer);
                    out
                },
            }
        } else {
            let ghost buffer = self@.scratch.buffer;
            let out = self.scratch.buffer.drain();
            assert(buffer.buffer.subrange(0, buffer.buffer.len() as int) =~= buffer.buffer);
            out
        };
        assert(spec_output(self.scratch@.buffer) =~= spec_output(old(self).scratch@.buffer));
        Ok(out)
    }

    /// Moves what can leave the buffer now to the start of `target`, as
    /// much as fits, and returns the number of bytes moved. It is
    /// `FailedToDrainDecodebuffer`, and nothing moves, if the output is
    /// longer than a checksum can count.
    pub(crate) fn collect_into(&mut self, target: &mut [u8]) -> (res: Result<usize, FrameDecoderError>)
        requires
            old(self).well_formed(),
        ensures
            final(self).well_formed(),
            final(target)@.len() == old(target)@.len(),
            match spec_collect(old(self)@, old(target)@.len()) {
                Ok((after, out)) => {
                    &&& res == Ok::<usize, FrameDecoderError>(out.len() as usize)
                    &&& final(self)@ == after
                    &&& final(target)@ == out + old(target)@.subrange(
                        out.len() as int,
                        old(target)@.len() as int,
                    )
                },
                Err(e) => {
                    &&& res == Err::<usize, FrameDecoderError>(e)
                    &&& final(self)@ == old(self)@
                    &&& final(target)@ == old(target)@
                },
            },
    {
        if !self.can_hash_buffered() {
            return Err(FrameDecoderError::FailedToDrainDecodebuffer);
        }
        let moved = if self.phase == Phase::DecodingBlocks {
            self.scratch.buffer.read(target)
        } else {
            self.scratch.buffer.read_all(target)
        };
        assert(spec_output(self.scratch@.buffer) =~= spec_output(old(self).scratch@.buffer));
        match moved {
            Ok(amount) => Ok(amount),
            Err(_) => Err(FrameDecoderError::FailedToDrainDecodebuffer),
        }
    }

    /// Whether the frame is decoded.
    pub(crate) fn is_finished(&self) -> (res: bool)
        ensures
            res <==> self@.phase == Phase::Done,
    {
        self.phase == Phase::Done
    }

    /// Whether the frame ends with a checksum that is not the checksum of
    /// its output.
    pub(crate) fn checksum_mismatch(&self) -> (res: bool)
        ensures
            res <==> self@.check_sum is Some && self@.check_sum != self@.calculated,
    {
        match self.check_sum {
            Some(stored) => match self.calculated {
                Some(calculated) => stored != calculated,
                None => true,
            },
            None => false,
        }
    }

    /// Takes all output out of the buffer of a frame that is decoded.
    pub(crate) fn collect_all(&mut self) -> (res: Vec<u8>)
        requires
            old(self).well_formed(),
            old(self)@.phase == Phase::Done,
        ensures
            final(self).well_formed(),
            res@ == old(self)@.scratch.buffer.buffer,
            final(self)@ == (FrameStateView {
                scratch: DecoderScratchView {
                    buffer: spec_drained(
                        old(self)@.scratch.buffer,
                        old(self)@.scratch.buffer.buffer.len() as int,
                    ),
                    ..old(self)@.scratch
                },
                ..old(self)@
            }),
    {
        let out = self.scratch.buffer.drain();
        assert(spec_output(self.scratch@.buffer) =~= spec_output(old(self).scratch@.buffer));
        out
    }

    /// The state at the start of a frame.
    fn start(header: FrameHeader, header_len: u8, dict: Option<Dictionary>) -> (res: FrameState)
        requires
            dict matches Some(d) ==> d.built_or_empty(),
        ensures
            res.well_formed(),
            res@ == spec_start(
                header,
                header_len as nat,
                match dict {
                    Some(d) => Some(d@),
                    None => None,
                },
            ),
    {
        let window: usize = if header.window_size < MIN_WINDOW_SIZE {
            MIN_WINDOW_SIZE as usize
        } else {
            header.window_size as usize
        };
        let scratch = match dict {
            Some(dict) => DecoderScratch::with_dict(window, dict),
            None => DecoderScratch::new(window),
        };
        FrameState {
            header,
            scratch,
            phase: Phase::DecodingBlocks,
            block_counter: 0,
            bytes_read_counter: header_len as u64,
            check_sum: None,
            calculated: None,
        }
    }

    /// Makes the frame decoded, as [`spec_finish`] describes.
    fn finish(&mut self, check_sum: Option<u32>, used: usize) -> (res: Result<
        Option<usize>,
        FrameDecoderError,
    >)
        requires
            old(self).well_formed(),
            old(self)@.phase != Phase::Done,
        ensures
            final(self).well_formed(),
            match spec_finish(old(self)@, check_sum, used as nat) {
                Ok(Some((state, bytes))) => res == Ok::<Option<usize>, FrameDecoderError>(
                    Some(bytes),
                ) && final(self)@ == state,
                Ok(None) => res == Ok::<Option<usize>, FrameDecoderError>(None) && final(self)@
                    == old(self)@,
                Err(e) => res == Err::<Option<usize>, FrameDecoderError>(e),
            },
    {
        let hashed: u64 = self.scratch.buffer.hashed_len();
        let buffered: usize = self.scratch.buffer.len();
        if hashed > u64::MAX - buffered as u64 {
            return Err(FrameDecoderError::FailedToDrainDecodebuffer);
        }
        let calculated: u32 = self.scratch.buffer.checksum_with_buffered();
        self.calculated = Some(calculated);
        self.check_sum = check_sum;
        self.phase = Phase::Done;
        self.bytes_read_counter = self.bytes_read_counter.saturating_add(used as u64);
        Ok(Some(used))
    }

    /// Decodes the block at the start of `rest`, as [`spec_step_block`]
    /// describes.
    fn step_block(&mut self, rest: &[u8]) -> (res: Result<Option<usize>, FrameDecoderError>)
        requires
            old(self).well_formed(),
            old(self)@.phase == Phase::DecodingBlocks,
        ensures
            final(self).well_formed(),
            match spec_step_block(old(self)@, rest@) {
                Ok(Some((state, bytes))) => res == Ok::<Option<usize>, FrameDecoderError>(
                    Some(bytes),
                ) && final(self)@ == state,
                Ok(None) => res == Ok::<Option<usize>, FrameDecoderError>(None) && final(self)@
                    == old(self)@,
                Err(e) => res == Err::<Option<usize>, FrameDecoderError>(e),
            },
    {
        if rest.len() < BLOCK_HEADER_SIZE {
            return Ok(None);
        }
        let header = match read_block_header(rest) {
            Ok(header) => header,
            Err(e) => {
                return Err(FrameDecoderError::FailedToReadBlockHeader(e));
            },
        };
        let block_size: u32 = match header.block_type {
            BlockType::RLE => header.decompressed_size,
            _ => header.content_size,
        };
        if block_size as u64 > self.header.window_size {
            return Err(FrameDecoderError::FailedToReadBlockHeader(DecodeError::CorruptedBlockHeader));
        }
        // a block is at most 128 KiB long
        let used: usize = BLOCK_HEADER_SIZE + header.content_size as usize;
        if rest.len() < used {
            return Ok(None);
        }
        match decode_block_content(
            &header,
            &mut self.scratch,
            &rest[BLOCK_HEADER_SIZE..rest.len()],
        ) {
            Ok(()) => {},
            Err(e) => {
                return Err(FrameDecoderError::FailedToReadBlockBody(e));
            },
        }
        self.block_counter = self.block_counter.saturating_add(1);
        if !header.last_block {
            self.bytes_read_counter = self.bytes_read_counter.saturating_add(used as u64);
            Ok(Some(used))
        } else if self.header.content_checksum {
            self.phase = Phase::AwaitingChecksum;
            self.bytes_read_counter = self.bytes_read_counter.saturating_add(used as u64);
            Ok(Some(used))
        } else {
            self.finish(None, used)
        }
    }

    /// Reads the next item of the frame, as [`spec_step`] describes.
    pub(crate) fn step(&mut self, rest: &[u8]) -> (res: Result<Option<usize>, FrameDecoderError>)
        requires
            old(self).well_formed(),
        ensures
            final(self).well_formed(),
            match spec_step(old(self)@, rest@) {
                Ok(Some((state, bytes))) => res == Ok::<Option<usize>, FrameDecoderError>(
                    Some(bytes),
                ) && final(self)@ == state,
                Ok(None) => res == Ok::<Option<usize>, FrameDecoderError>(None) && final(self)@
                    == old(self)@,
                Err(e) => res == Err::<Option<usize>, FrameDecoderError>(e),
            },
            res matches Ok(Some(bytes)) ==> 0 < bytes <= rest@.len(),
    {
        match self.phase {
            Phase::DecodingBlocks => self.step_block(rest),
            Phase::AwaitingChecksum => {
                if rest.len() < 4 {
                    return Ok(None);
                }
                proof {
                    lemma2_to64();
                    lemma_bits_value_bound(rest@, 0, 32);
                }
                let check_sum: u64 = extract_bits(rest, 0, 0, 32);
                self.finish(Some(check_sum as u32), 4)
            },
            Phase::Done => Ok(None),
        }
    }
}

/// The lowest of the sixteen magic numbers of skippable frames.
pub const SKIPPABLE_MAGIC_LOW: u32 = 0x184D_2A50;

/// The highest of the sixteen magic numbers of skippable frames.
pub const SKIPPABLE_MAGIC_HIGH: u32 = 0x184D_2A5F;

/// Every item of a frame takes at least one byte, and no more bytes than
/// there are.
pub proof fn lemma_step_advances(state: FrameStateView, rest: Seq<u8>)
    ensures
        spec_step(state, rest) matches Ok(Some((next, used))) ==> 0 < used <= rest.len(),
{
    lemma2_to64();
    if rest.len() >= BLOCK_HEADER_SIZE {
        lemma_bits_value_bound(rest, 3, 21);
    }
}

/// The error of a frame whose data ends within its next item, `rest_len`
/// bytes into it.
pub open spec fn spec_short(phase: Phase, rest_len: nat) -> FrameDecoderError {
    match phase {
        Phase::AwaitingChecksum => FrameDecoderError::FailedToReadChecksum,
        _ => if rest_len < BLOCK_HEADER_SIZE {
            FrameDecoderError::FailedToReadBlockHeader(DecodeError::ShortInput)
        } else {
            FrameDecoderError::FailedToReadBlockBody(DecodeError::ShortInput)
        },
    }
}

/// The state after all items of the frame from byte `at` of `source` on
/// have been read, and the position behind the last of them. It is an
/// error if `source` ends before the frame does.
pub open spec fn spec_run(state: FrameStateView, source: Seq<u8>, at: nat) -> Result<
    (FrameStateView, nat),
    FrameDecoderError,
>
    decreases source.len() - at,
{
    if state.phase == Phase::Done {
        Ok((state, at))
    } else if at > source.len() {
        Err(spec_short(state.phase, 0))
    } else {
        let rest = source.subrange(at as int, source.len() as int);
        match spec_step(state, rest) {
            Err(e) => Err(e),
            Ok(None) => Err(spec_short(state.phase, rest.len())),
            Ok(Some((next, used))) => {
                proof {
                    lemma_step_advances(state, rest);
                }
                spec_run(next, source, (at + used) as nat)
            },
        }
    }
}

/// The position of the first frame header from byte `at` of `source` on
/// that is not the header of a skippable frame. A skippable frame is one
/// of sixteen magic numbers, a size of four bytes, and that many bytes. It
/// is `ShortInput` if `source` ends within a skippable frame.
pub open spec fn spec_skip_frames(source: Seq<u8>, at: nat) -> Result<nat, DecodeError>
    decreases source.len() - at,
{
    if at + 4 > source.len() {
        Ok(at)
    } else {
        let magic = bits_value(source, 8 * at as int, 32);
        if magic < SKIPPABLE_MAGIC_LOW || magic > SKIPPABLE_MAGIC_HIGH {
            Ok(at)
        } else if at + 8 > source.len() {
            Err(DecodeError::ShortInput)
        } else {
            let size = bits_value(source, 8 * at as int + 32, 32);
            if at + 8 + size > source.len() {
                Err(DecodeError::ShortInput)
            } else {
                spec_skip_frames(source, (at + 8 + size) as nat)
            }
        }
    }
}

/// The index of the first dictionary from `from` on that has the id `id`.
pub open spec fn spec_find_dict(dicts: Seq<DictionaryView>, id: u32, from: int) -> Option<int>
    decreases dicts.len() - from,
{
    if from < 0 || from >= dicts.len() {
        None
    } else if dicts[from].id == id {
        Some(from)
    } else {
        spec_find_dict(dicts, id, from + 1)
    }
}

/// The dictionary that a frame with the header `header` is decoded with.
/// It is `DictNotProvided` if the frame names a dictionary and there is
/// none at all, and `DictIdMismatch` if there are only others.
pub open spec fn spec_choose_dict(dicts: Seq<DictionaryView>, header: FrameHeader) -> Result<
    Option<DictionaryView>,
    FrameDecoderError,
> {
    match header.dict_id {
        None => Ok(None),
        Some(id) => match spec_find_dict(dicts, id, 0) {
            Some(index) => Ok(Some(dicts[index])),
            None => if dicts.len() == 0 {
                Err(FrameDecoderError::DictNotProvided)
            } else {
                Err(FrameDecoderError::DictIdMismatch)
            },
        },
    }
}

/// The state at the start of the first frame of `source` that is not
/// skippable, and the position behind its header. An error of the header
/// is a `FailedToInitialize`.
pub open spec fn spec_reset(dicts: Seq<DictionaryView>, source: Seq<u8>) -> Result<
    (FrameStateView, usize),
    FrameDecoderError,
> {
    match spec_skip_frames(source, 0) {
        Err(e) => Err(FrameDecoderError::FailedToInitialize(e)),
        Ok(at) => match spec_read_frame_header(source.subrange(at as int, source.len() as int)) {
            Err(e) => Err(FrameDecoderError::FailedToInitialize(e)),
            Ok((header, header_len)) => match spec_choose_dict(dicts, header) {
                Err(e) => Err(e),
                Ok(dict) => Ok(
                    (spec_start(header, header_len as nat, dict), (at + header_len) as usize),
                ),
            },
        },
    }
}

/// What reading the first frame of `source` gives: the state when the
/// frame is decoded, and its end in `source`.
pub open spec fn spec_decode_frame(dicts: Seq<DictionaryView>, source: Seq<u8>) -> Result<
    (FrameStateView, nat),
    FrameDecoderError,
> {
    match spec_reset(dicts, source) {
        Err(e) => Err(e),
        Ok((start, at)) => spec_run(start, source, at as nat),
    }
}

/// Whether the frame ends with a checksum that is not the checksum of its
/// output.
pub open spec fn spec_checksum_mismatch(done: FrameStateView) -> bool {
    done.check_sum is Some && done.check_sum != done.calculated
}

/// The state that `decode_all` leaves of a frame that it has read to its
/// end: all output has left the buffer, unless the frame ends with a
/// checksum that is not the checksum of its output.
pub open spec fn spec_after_decode_all(done: FrameStateView) -> FrameStateView {
    if spec_checksum_mismatch(done) {
        done
    } else {
        FrameStateView {
            scratch: DecoderScratchView {
                buffer: spec_drained(done.scratch.buffer, done.scratch.buffer.buffer.len() as int),
                ..done.scratch
            },
            ..done
        }
    }
}

/// The output of the first frame of `source`. It is `ChecksumMismatch` if
/// the frame is decoded but ends with a checksum that is not the checksum
/// of its output.
pub open spec fn spec_decode_all(dicts: Seq<DictionaryView>, source: Seq<u8>) -> Result<
    Seq<u8>,
    FrameDecoderError,
> {
    match spec_decode_frame(dicts, source) {
        Err(e) => Err(e),
        Ok((done, end)) => if spec_checksum_mismatch(done) {
            Err(FrameDecoderError::ChecksumMismatch)
        } else {
            Ok(spec_output(done.scratch.buffer))
        },
    }
}

/// How far a call may decode.
#[derive(Debug, Copy, Clone, PartialEq, Eq, Structural)]
pub enum BlockDecodingStrategy {
    /// As far as the data goes.
    All,
    /// No more than this many blocks.
    UptoBlocks(usize),
    /// Until at least this many bytes are buffered.
    UptoBytes(usize),
}

/// Whether a call that has decoded `blocks` blocks need not decode more.
pub open spec fn spec_satisfied(strategy: BlockDecodingStrategy, state: FrameStateView, blocks: nat) -> bool {
    state.phase == Phase::DecodingBlocks && match strategy {
        BlockDecodingStrategy::All => false,
        BlockDecodingStrategy::UptoBlocks(n) => blocks >= n,
        BlockDecodingStrategy::UptoBytes(n) => state.scratch.buffer.buffer.len() >= n,
    }
}

/// The state after the items of the frame from byte `at` of `source` on
/// have been read that `source` holds completely and that the strategy
/// asks for, and the position behind the last of them. Data that ends
/// within an item is no error: the item is left for a later call.
pub open spec fn spec_decode_available(
    state: FrameStateView,
    source: Seq<u8>,
    at: nat,
    strategy: BlockDecodingStrategy,
    blocks: nat,
) -> Result<(FrameStateView, nat), FrameDecoderError>
    decreases source.len() - at,
{
    if state.phase == Phase::Done || at > source.len() || spec_satisfied(strategy, state, blocks) {
        Ok((state, at))
    } else {
        let rest = source.subrange(at as int, source.len() as int);
        match spec_step(state, rest) {
            Err(e) => Err(e),
            Ok(None) => Ok((state, at)),
            Ok(Some((next, used))) => {
                proof {
                    lemma_step_advances(state, rest);
                }
                spec_decode_available(
                    next,
                    source,
                    (at + used) as nat,
                    strategy,
                    spec_count_blocks(blocks),
                )
            },
        }
    }
}

/// One block more; the count stops where a `usize` does.
pub open spec fn spec_count_blocks(blocks: nat) -> nat {
    if blocks >= usize::MAX {
        usize::MAX as nat
    } else {
        blocks + 1
    }
}

/// The number of bytes that can leave the buffer: all that is buffered
/// once the last block is decoded; before, what exceeds the window.
pub open spec fn spec_can_collect(state: FrameStateView) -> usize {
    let buffer = state.scratch.buffer;
    if state.phase == Phase::DecodingBlocks {
        match spec_can_drain_to_window_size(buffer) {
            Some(amount) => amount,
            None => 0,
        }
    } else {
        buffer.buffer.len() as usize
    }
}

/// The state after what can leave the buffer, but no more than `limit`
/// bytes, has left it, and the bytes that left. It is
/// `FailedToDrainDecodebuffer` if the output is longer than a checksum can
/// count.
pub open spec fn spec_collect(state: FrameStateView, limit: nat) -> Result<
    (FrameStateView, Seq<u8>),
    FrameDecoderError,
> {
    let buffer = state.scratch.buffer;
    if spec_output(buffer).len() > u64::MAX {
        Err(FrameDecoderError::FailedToDrainDecodebuffer)
    } else {
        let amount = spec_read_amount(spec_can_collect(state), limit);
        Ok(
            (
                FrameStateView {
                    scratch: DecoderScratchView {
                        buffer: spec_drained(buffer, amount as int),
                        ..state.scratch
                    },
                    ..state
                },
                buffer.buffer.subrange(0, amount as int),
            ),
        )
    }
}

/// What `decode_blocks` does to the state of a decoder: without frame it
/// is `NotYetInitialized`; else the items of the frame that `source` holds
/// completely are read.
pub open spec fn spec_decode_blocks(
    state: Option<FrameStateView>,
    source: Seq<u8>,
    strategy: BlockDecodingStrategy,
) -> Result<(FrameStateView, nat), FrameDecoderError> {
    match state {
        None => Err(FrameDecoderError::NotYetInitialized),
        Some(state) => spec_decode_available(state, source, 0, strategy, 0),
    }
}

/// The state that a call of `decode_from_to` starts from, and the position
/// in `source` that it starts at: the frame at hand or, without one, the
/// frame whose header `source` starts with. It is `None` if `source` ends
/// within that header: then the call does nothing, and a later call with
/// more data starts the frame.
pub open spec fn spec_begin(
    state: Option<FrameStateView>,
    dicts: Seq<DictionaryView>,
    source: Seq<u8>,
) -> Result<Option<(FrameStateView, usize)>, FrameDecoderError> {
    match state {
        Some(state) => Ok(Some((state, 0usize))),
        None => match spec_reset(dicts, source) {
            Ok((state, at)) => Ok(Some((state, at))),
            Err(e) => if e == FrameDecoderError::FailedToInitialize(DecodeError::ShortInput) {
                Ok(None)
            } else {
                Err(e)
            },
        },
    }
}

/// What `decode_from_to` does: the state after it, the number of bytes of
/// `source` that it has read, and the bytes that it has written to the
/// start of a target of `target_len` bytes.
///
/// All items of the frame that `source` holds completely are read; then
/// what can leave the buffer leaves it, as far as the target has room. It
/// is `TargetTooSmall`, and nothing is read, if output is waiting and the
/// target has no room at all; and `ChecksumMismatch` if the frame is
/// decoded and ends with a checksum that is not the checksum of its
/// output.
pub open spec fn spec_decode_from_to(
    state: Option<FrameStateView>,
    dicts: Seq<DictionaryView>,
    source: Seq<u8>,
    target_len: nat,
) -> Result<(Option<FrameStateView>, nat, Seq<u8>), FrameDecoderError> {
    if target_len == 0 && (state matches Some(waiting) && spec_can_collect(waiting) > 0) {
        Err(FrameDecoderError::TargetTooSmall)
    } else {
        spec_decode_from_to_room(state, dicts, source, target_len)
    }
}

/// The state that `decode_from_to` reaches by reading, before anything
/// leaves the buffer; `None` if `source` ends within the frame header.
pub open spec fn spec_decode_from_to_reads(
    state: Option<FrameStateView>,
    dicts: Seq<DictionaryView>,
    source: Seq<u8>,
) -> Result<Option<(FrameStateView, nat)>, FrameDecoderError> {
    match spec_begin(state, dicts, source) {
        Err(e) => Err(e),
        Ok(None) => Ok(None),
        Ok(Some((start, at))) => match spec_decode_available(
            start,
            source,
            at as nat,
            BlockDecodingStrategy::All,
            0,
        ) {
            Err(e) => Err(e),
            Ok(reached) => Ok(Some(reached)),
        },
    }
}

/// The state that `decode_from_to` leaves when it fails: the state as it
/// was if the target has no room; the state that reading has reached if
/// the frame is decoded but its checksum is not the checksum of its
/// output, or if the output is longer than a checksum can count; and no
/// frame after an error of the frame header or of a block.
pub open spec fn spec_failed_decode_from_to(
    state: Option<FrameStateView>,
    dicts: Seq<DictionaryView>,
    source: Seq<u8>,
    target_len: nat,
) -> Option<FrameStateView> {
    if target_len == 0 && (state matches Some(waiting) && spec_can_collect(waiting) > 0) {
        state
    } else {
        match spec_decode_from_to_reads(state, dicts, source) {
            Ok(Some((reached, end))) => Some(reached),
            _ => None,
        }
    }
}

/// What `decode_from_to` does when it is not refused for want of room.
pub open spec fn spec_decode_from_to_room(
    state: Option<FrameStateView>,
    dicts: Seq<DictionaryView>,
    source: Seq<u8>,
    target_len: nat,
) -> Result<(Option<FrameStateView>, nat, Seq<u8>), FrameDecoderError> {
    match spec_begin(state, dicts, source) {
        Err(e) => Err(e),
        Ok(None) => Ok((None, 0, Seq::empty())),
        Ok(Some((start, at))) => match spec_decode_available(
            start,
            source,
            at as nat,
            BlockDecodingStrategy::All,
            0,
        ) {
            Err(e) => Err(e),
            Ok((after, end)) => if spec_checksum_mismatch(after) {
                Err(FrameDecoderError::ChecksumMismatch)
            } else {
                match spec_collect(after, target_len) {
                    Err(e) => Err(e),
                    Ok((drained, out)) => Ok((Some(drained), end, out)),
                }
            },
        },
    }
}

/// A decoder of frames, with the dictionaries it has been given.
pub struct FrameDecoder {
    state: Option<FrameState>,
    dicts: Vec<Dictionary>,
}

/// The dictionaries of a decoder, as plain values.
pub open spec fn spec_dict_views(dicts: Seq<Dictionary>) -> Seq<DictionaryView> {
    Seq::new(dicts.len(), |i: int| dicts[i]@)
}

impl FrameDecoder {
    /// Whether the tables of the state and of the dictionaries are in
    /// order.
    pub closed spec fn well_formed(&self) -> bool {
        &&& self.state matches Some(state) ==> state.well_formed()
        &&& forall|i: int| 0 <= i < self.dicts@.len() ==> (#[trigger] self.dicts@[i]).built_or_empty()
    }

    /// The state of the frame at hand, if there is one.
    pub closed spec fn state(&self) -> Option<FrameStateView> {
        match self.state {
            Some(state) => Some(state@),
            None => None,
        }
    }

    /// The dictionaries that the decoder has.
    pub closed spec fn dicts(&self) -> Seq<DictionaryView> {
        spec_dict_views(self.dicts@)
    }

    /// A decoder without frame and without dictionaries.
    pub fn new() -> (res: FrameDecoder)
        ensures
            res.well_formed(),
            res.state() is None,
            res.dicts().len() == 0,
    {
        FrameDecoder { state: None, dicts: Vec::new() }
    }

    /// Finds the first frame header of `source` that is not the header of
    /// a skippable frame, as [`spec_skip_frames`] describes.
    fn skip_frames(source: &[u8]) -> (res: Result<usize, DecodeError>)
        ensures
            match spec_skip_frames(source@, 0) {
                Ok(at) => res == Ok::<usize, DecodeError>(at as usize) && at <= source@.len(),
                Err(e) => res == Err::<usize, DecodeError>(e),
            },
    {
        let mut at: usize = 0;
        while source.len() - at >= 4
            invariant
                at <= source@.len(),
                spec_skip_frames(source@, 0) == spec_skip_frames(source@, at as nat),
            decreases source@.len() - at,
        {
            proof {
                lemma2_to64();
                lemma_bits_value_bound(source@, 8 * at, 32);
                lemma_bits_value_bound(source@, 8 * at + 32, 32);
            }
            let magic: u64 = extract_bits(source, at, 0, 32);
            if magic < SKIPPABLE_MAGIC_LOW as u64 || magic > SKIPPABLE_MAGIC_HIGH as u64 {
                return Ok(at);
            }
            if source.len() - at < 8 {
                return Err(DecodeError::ShortInput);
            }
            let size: u64 = extract_bits(source, at + 4, 0, 32);
            if size > (source.len() - at - 8) as u64 {
                return Err(DecodeError::ShortInput);
            }
            at = at + 8 + size as usize;
        }
        Ok(at)
    }

    /// Finds the dictionary that a frame is decoded with, as
    /// [`spec_choose_dict`] describes, and copies it.
    fn choose_dict(&self, header: &FrameHeader) -> (res: Result<Option<Dictionary>, FrameDecoderError>)
        requires
            self.well_formed(),
        ensures
            match spec_choose_dict(self.dicts(), *header) {
                Ok(Some(dict)) => res matches Ok(Some(got)) && got@ == dict && got.built_or_empty(),
                Ok(None) => res matches Ok(None),
                Err(e) => res matches Err(got) && got == e,
            },
    {
        let id: u32 = match header.dict_id {
            Some(id) => id,
            None => {
                return Ok(None);
            },
        };
        let mut index: usize = 0;
        while index < self.dicts.len()
            invariant
                index <= self.dicts@.len(),
                self.well_formed(),
                header.dict_id == Some(id),
                spec_find_dict(self.dicts(), id, 0) == spec_find_dict(self.dicts(), id, index as int),
            decreases self.dicts@.len() - index,
        {
            assert(self.dicts()[index as int] == self.dicts@[index as int]@);
            if self.dicts[index].id == id {
                let copy = self.dicts[index].duplicate();
                assert(self.dicts@[index as int].built_or_empty());
                assert(copy.huf.table@ == self.dicts@[index as int].huf.table@);
                assert(copy.fse.offsets@ == self.dicts@[index as int].fse.offsets@);
                assert(copy.fse.literal_lengths@ == self.dicts@[index as int].fse.literal_lengths@);
                assert(copy.fse.match_lengths@ == self.dicts@[index as int].fse.match_lengths@);
                return Ok(Some(copy));
            }
            index = index + 1;
        }
        if self.dicts.len() == 0 {
            Err(FrameDecoderError::DictNotProvided)
        } else {
            Err(FrameDecoderError::DictIdMismatch)
        }
    }

    /// Starts on the first frame of `source` that is not skippable, as
    /// [`spec_reset`] describes, and returns the position behind its
    /// header. On an error the decoder is left without frame.
    pub fn reset(&mut self, source: &[u8]) -> (res: Result<usize, FrameDecoderError>)
        requires
            old(self).well_formed(),
        ensures
            final(self).well_formed(),
            final(self).dicts() == old(self).dicts(),
            match spec_reset(old(self).dicts(), source@) {
                Ok((state, at)) => {
                    &&& res == Ok::<usize, FrameDecoderError>(at)
                    &&& final(self).state() == Some(state)
                    &&& at <= source@.len()
                },
                Err(e) => res == Err::<usize, FrameDecoderError>(e) && final(self).state() is None,
            },
    {
        self.state = None;
        let at: usize = match Self::skip_frames(source) {
            Ok(at) => at,
            Err(e) => {
                return Err(FrameDecoderError::FailedToInitialize(e));
            },
        };
        let (header, header_len) = match read_frame_header(&source[at..source.len()]) {
            Ok(got) => got,
            Err(e) => {
                return Err(FrameDecoderError::FailedToInitialize(e));
            },
        };
        let dict = match self.choose_dict(&header) {
            Ok(dict) => dict,
            Err(e) => {
                return Err(e);
            },
        };
        self.state = Some(FrameState::start(header, header_len, dict));
        Ok(at + header_len as usize)
    }

    /// Parses the dictionary `raw` and keeps it for the frames to come.
    pub fn add_dict(&mut self, raw: &[u8]) -> (res: Result<(), DecodeError>)
        requires
            old(self).well_formed(),
        ensures
            final(self).well_formed(),
            final(self).state() == old(self).state(),
            match spec_decode_dict(raw@) {
                Ok(dict) => res is Ok && final(self).dicts() == old(self).dicts().push(dict),
                Err(e) => res == Err::<(), DecodeError>(e) && final(self).dicts() == old(self).dicts(),
            },
    {
        let dict = match Dictionary::decode_dict(raw) {
            Ok(dict) => dict,
            Err(e) => {
                return Err(e);
            },
        };
        self.dicts.push(dict);
        assert(self.dicts() =~= old(self).dicts().push(dict@));
        Ok(())
    }

    /// Decodes the first frame of `source` that is not skippable, from its
    /// header to its end, and returns its output.
    ///
    /// It gives what [`spec_decode_all`] describes. Whenever the frame has
    /// been read to its end, whether its checksum is the checksum of its
    /// output or not, the decoder holds the header and both checksums;
    /// after any other error it holds no frame.
    pub fn decode_all(&mut self, source: &[u8]) -> (res: Result<Vec<u8>, FrameDecoderError>)
        requires
            old(self).well_formed(),
        ensures
            final(self).well_formed(),
            final(self).dicts() == old(self).dicts(),
            match spec_decode_all(old(self).dicts(), source@) {
                Ok(output) => res matches Ok(out) && out@ == output,
                Err(e) => res matches Err(got) && got == e,
            },
            match spec_decode_frame(old(self).dicts(), source@) {
                Ok((done, end)) => final(self).state() == Some(spec_after_decode_all(done)),
                Err(_) => final(self).state() is None,
            },
    {
        let at: usize = match self.reset(source) {
            Ok(at) => at,
            Err(e) => {
                return Err(e);
            },
        };
        let mut state: FrameState = match self.take_state() {
            Some(state) => state,
            None => {
                return Err(FrameDecoderError::NotYetInitialized);
            },
        };
        assert(state@.scratch.buffer.hashed =~= Seq::<u8>::empty());
        match state.run(source, at) {
            Ok(_) => {},
            Err(e) => {
                return Err(e);
            },
        }
        if state.checksum_mismatch() {
            self.state = Some(state);
            return Err(FrameDecoderError::ChecksumMismatch);
        }
        let ghost done = state@;
        let out = state.collect_all();
        proof {
            lemma_run_keeps_hashed(
                spec_reset(old(self).dicts(), source@)->Ok_0.0,
                source@,
                at as nat,
            );
            assert(spec_output(done.scratch.buffer) =~= done.scratch.buffer.buffer);
        }
        self.state = Some(state);
        Ok(out)
    }

    /// Takes the state out of the decoder.
    fn take_state(&mut self) -> (res: Option<FrameState>)
        requires
            old(self).well_formed(),
        ensures
            final(self).well_formed(),
            final(self).dicts() == old(self).dicts(),
            final(self).state() is None,
            match res {
                Some(state) => old(self).state() == Some(state@) && state.well_formed(),
                None => old(self).state() is None,
            },
    {
        let mut taken: Option<FrameState> = None;
        core::mem::swap(&mut self.state, &mut taken);
        taken
    }

    /// Reads the items of the frame at hand that `source` holds
    /// completely, as far as `strategy` asks for, and returns whether the
    /// frame is decoded and the number of bytes read.
    ///
    /// The state changes as [`spec_decode_blocks`] describes. It is
    /// `ChecksumMismatch` if the frame is decoded and ends with a checksum
    /// that is not the checksum of its output; the state is then as it is
    /// without that. After any other error the decoder holds no frame, and
    /// must be reset.
    pub fn decode_blocks(&mut self, source: &[u8], strategy: BlockDecodingStrategy) -> (res: Result<
        (bool, usize),
        FrameDecoderError,
    >)
        requires
            old(self).well_formed(),
        ensures
            final(self).well_formed(),
            final(self).dicts() == old(self).dicts(),
            match spec_decode_blocks(old(self).state(), source@, strategy) {
                Ok((after, end)) => {
                    &&& final(self).state() == Some(after)
                    &&& res == if spec_checksum_mismatch(after) {
                        Err::<(bool, usize), FrameDecoderError>(FrameDecoderError::ChecksumMismatch)
                    } else {
                        Ok((after.phase == Phase::Done, end as usize))
                    }
                },
                Err(e) => {
                    &&& res == Err::<(bool, usize), FrameDecoderError>(e)
                    &&& final(self).state() is None
                },
            },
    {
        let mut state: FrameState = match self.take_state() {
            Some(state) => state,
            None => {
                return Err(FrameDecoderError::NotYetInitialized);
            },
        };
        let end: usize = match state.decode_available(source, 0, strategy) {
            Ok(end) => end,
            Err(e) => {
                return Err(e);
            },
        };
        let mismatch: bool = state.checksum_mismatch();
        let finished: bool = state.is_finished();
        self.state = Some(state);
        if mismatch {
            Err(FrameDecoderError::ChecksumMismatch)
        } else {
            Ok((finished, end))
        }
    }

    /// Reads from `source` what it holds of the frame at hand, starting a
    /// frame if there is none, and writes what can leave the buffer to the
    /// start of `target`; returns the number of bytes read and the number
    /// of bytes written, as [`spec_decode_from_to`] describes. If it fails
    /// it leaves the state that [`spec_failed_decode_from_to`] describes:
    /// after an error of the frame header or of a block the decoder holds
    /// no frame, and must be reset.
    pub fn decode_from_to(&mut self, source: &[u8], target: &mut [u8]) -> (res: Result<
        (usize, usize),
        FrameDecoderError,
    >)
        requires
            old(self).well_formed(),
        ensures
            final(self).well_formed(),
            final(self).dicts() == old(self).dicts(),
            final(target)@.len() == old(target)@.len(),
            match spec_decode_from_to(
                old(self).state(),
                old(self).dicts(),
                source@,
                old(target)@.len(),
            ) {
                Ok((after, read, written)) => {
                    &&& res == Ok::<(usize, usize), FrameDecoderError>(
                        (read as usize, written.len() as usize),
                    )
                    &&& final(self).state() == after
                    &&& final(target)@ == written + old(target)@.subrange(
                        written.len() as int,
                        old(target)@.len() as int,
                    )
                    &&& read <= source@.len()
                },
                Err(e) => {
                    &&& res == Err::<(usize, usize), FrameDecoderError>(e)
                    &&& final(self).state() == spec_failed_decode_from_to(
                        old(self).state(),
                        old(self).dicts(),
                        source@,
                        old(target)@.len(),
                    )
                },
            },
    {
        if target.len() == 0 && self.can_collect() > 0 {
            return Err(FrameDecoderError::TargetTooSmall);
        }
        let mut at: usize = 0;
        if self.state.is_none() {
            match self.reset(source) {
                Ok(behind_header) => {
                    at = behind_header;
                },
                Err(e) => {
                    match e {
                        FrameDecoderError::FailedToInitialize(DecodeError::ShortInput) => {
                            assert(old(target)@.subrange(0, old(target)@.len() as int) =~= old(target)@);
                            assert(Seq::<u8>::empty() + old(target)@ =~= old(target)@);
                            return Ok((0, 0));
                        },
                        _ => {
                            return Err(e);
                        },
                    }
                },
            }
        }
        let mut state: FrameState = match self.take_state() {
            Some(state) => state,
            None => {
                return Err(FrameDecoderError::NotYetInitialized);
            },
        };
        let end: usize = match state.decode_available(source, at, BlockDecodingStrategy::All) {
            Ok(end) => end,
            Err(e) => {
                return Err(e);
            },
        };
        if state.checksum_mismatch() {
            self.state = Some(state);
            return Err(FrameDecoderError::ChecksumMismatch);
        }
        let written = state.collect_into(target);
        self.state = Some(state);
        match written {
            Ok(written) => Ok((end, written)),
            Err(e) => Err(e),
        }
    }

    /// Takes out of the buffer what can leave it now, as [`spec_collect`]
    /// describes. Without frame it is `NotYetInitialized`.
    pub fn collect(&mut self) -> (res: Result<Vec<u8>, FrameDecoderError>)
        requires
            old(self).well_formed(),
        ensures
            final(self).well_formed(),
            final(self).dicts() == old(self).dicts(),
            match old(self).state() {
                None => res matches Err(e) && e == FrameDecoderError::NotYetInitialized && final(self).state() is None,
                Some(state) => match spec_collect(state, usize::MAX as nat) {
                    Ok((after, out)) => {
                        &&& res matches Ok(got)
                        &&& got@ == out
                        &&& final(self).state() == Some(after)
                    },
                    Err(e) => res matches Err(got) && got == e && final(self).state() == Some(state),
                },
            },
    {
        let mut state: FrameState = match self.take_state() {
            Some(state) => state,
            None => {
                return Err(FrameDecoderError::NotYetInitialized);
            },
        };
        let out = state.collect();
        self.state = Some(state);
        out
    }

    /// The number of bytes that `collect` would take out now; 0 without
    /// frame.
    pub fn can_collect(&self) -> (res: usize)
        ensures
            res == match self.state() {
                Some(state) => spec_can_collect(state),
                None => 0,
            },
    {
        match &self.state {
            Some(state) => state.can_collect(),
            None => 0,
        }
    }

    /// The number of bytes that the frame at hand decodes to, if its
    /// header says so.
    pub fn content_size(&self) -> (res: Option<u64>)
        ensures
            res == match self.state() {
                Some(state) => state.header.content_size,
                None => None,
            },
    {
        match &self.state {
            Some(state) => state.header.content_size,
            None => None,
        }
    }

    /// The checksum that the frame at hand ends with, once it has been
    /// read.
    pub fn get_checksum_from_data(&self) -> (res: Option<u32>)
        ensures
            res == match self.state() {
                Some(state) => state.check_sum,
                None => None,
            },
    {
        match &self.state {
            Some(state) => state.check_sum,
            None => None,
        }
    }

    /// The checksum of the output of the frame at hand, once the frame is
    /// decoded.
    pub fn get_calculated_checksum(&self) -> (res: Option<u32>)
        ensures
            res == match self.state() {
                Some(state) => state.calculated,
                None => None,
            },
    {
        match &self.state {
            Some(state) => state.calculated,
            None => None,
        }
    }

    /// The number of blocks of the frame at hand that have been decoded.
    pub fn blocks_decoded(&self) -> (res: u64)
        ensures
            res == match self.state() {
                Some(state) => state.block_counter,
                None => 0,
            },
    {
        match &self.state {
            Some(state) => state.block_counter,
            None => 0,
        }
    }

    /// The number of bytes of the frame at hand that have been read.
    pub fn bytes_read_from_source(&self) -> (res: u64)
        ensures
            res == match self.state() {
                Some(state) => state.bytes_read_counter,
                None => 0,
            },
    {
        match &self.state {
            Some(state) => state.bytes_read_counter,
            None => 0,
        }
    }

    /// Whether the frame at hand is decoded. Without frame there is
    /// nothing to decode.
    pub fn is_finished(&self) -> (res: bool)
        ensures
            res <==> match self.state() {
                Some(state) => state.phase == Phase::Done,
                None => true,
            },
    {
        match &self.state {
            Some(state) => state.is_finished(),
            None => true,
        }
    }
}

/// Reading the items of a frame lets nothing out of the buffer: what has
/// passed through the checksum stays the same.
pub proof fn lemma_step_keeps_hashed(state: FrameStateView, rest: Seq<u8>)
    ensures
        spec_step(state, rest) matches Ok(Some((next, used))) ==> next.scratch.buffer.hashed
            == state.scratch.buffer.hashed,
{
    if state.phase == Phase::DecodingBlocks && rest.len() >= BLOCK_HEADER_SIZE {
        match spec_read_block_header(rest) {
            Ok(header) => {
                lemma_block_keeps_hashed(
                    header,
                    state.scratch,
                    rest.subrange(BLOCK_HEADER_SIZE as int, rest.len() as int),
                );
            },
            Err(_) => {},
        }
    }
}

/// See [`lemma_step_keeps_hashed`].
pub proof fn lemma_run_keeps_hashed(state: FrameStateView, source: Seq<u8>, at: nat)
    ensures
        spec_run(state, source, at) matches Ok((done, end)) ==> done.scratch.buffer.hashed
            == state.scratch.buffer.hashed,
    decreases source.len() - at,
{
    if state.phase != Phase::Done && at <= source.len() {
        let rest = source.subrange(at as int, source.len() as int);
        lemma_step_advances(state, rest);
        lemma_step_keeps_hashed(state, rest);
        match spec_step(state, rest) {
            Ok(Some((next, used))) => {
                lemma_run_keeps_hashed(next, source, (at + used) as nat);
            },
            _ => {},
        }
    }
}

} // verus!