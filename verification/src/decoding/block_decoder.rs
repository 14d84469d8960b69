//! Decoding one block of a frame.

use vstd::prelude::*;
use vstd::arithmetic::power2::lemma2_to64;
use crate::blocks::block::{BlockHeader, BlockType};
use crate::blocks::literals_section::{
    spec_parse_from_header as spec_parse_literals_header, LiteralsSection,
};
use crate::blocks::sequence_section::{
    spec_parse_from_header as spec_parse_sequences_header, Sequence, SequencesHeader,
};
use crate::decoding::bits::{bits_value, extract_bits, lemma_bits_value_bound};
use crate::decoding::decodebuffer::{spec_push, DecodebufferView};
use crate::decoding::literals_section_decoder::{decode_literals, spec_decode_literals};
use crate::decoding::scratch::{DecoderScratch, DecoderScratchView};
use crate::decoding::sequence_execution::{
    execute_sequences, lemma_execute_keeps_hashed, spec_execute_sequences, spec_match_total,
};
use crate::decoding::sequence_section_decoder::{decode_sequences, spec_decode_sequences};
use crate::errors::DecodeError;

verus! {

/// The number of bytes of a block header.
pub const BLOCK_HEADER_SIZE: usize = 3;

/// The largest size of a block: 128 KiB.
pub const ABSOLUTE_MAXIMUM_BLOCK_SIZE: u32 = 0x2_0000;

/// The block type that a two-bit field names.
pub open spec fn spec_block_type(code: int) -> BlockType {
    if code == 0 {
        BlockType::Raw
    } else if code == 1 {
        BlockType::RLE
    } else if code == 2 {
        BlockType::Compressed
    } else {
        BlockType::Reserved
    }
}

/// The block header at the start of `raw`.
///
/// A block header is three bytes, a bit field from the lowest bit: the
/// last-block flag, two bits of block type, 21 bits of block size. The
/// block size is the size of the content for a raw or compressed block and
/// the size of the output for a raw or RLE block; the content of an RLE
/// block is one byte, and what a compressed block decodes to is not known
/// from its header.
///
/// It is `ShortInput` if `raw` has fewer than three bytes,
/// `ReservedBlockType` for the type that does not exist, and
/// `CorruptedBlockHeader` if the block size is above 128 KiB.
pub open spec fn spec_read_block_header(raw: Seq<u8>) -> Result<BlockHeader, DecodeError> {
    if raw.len() < BLOCK_HEADER_SIZE {
        Err(DecodeError::ShortInput)
    } else {
        let block_type = spec_block_type(((raw[0] / 2) % 4) as int);
        let size = bits_value(raw, 3, 21);
        if block_type == BlockType::Reserved {
            Err(DecodeError::ReservedBlockType)
        } else if size > ABSOLUTE_MAXIMUM_BLOCK_SIZE {
            Err(DecodeError::CorruptedBlockHeader)
        } else {
            Ok(
                BlockHeader {
                    last_block: raw[0] % 2 == 1,
                    block_type,
                    decompressed_size: if block_type == BlockType::Compressed {
                        0
                    } else {
                        size as u32
                    },
                    content_size: if block_type == BlockType::RLE {
                        1
                    } else {
                        size as u32
                    },
                },
            )
        }
    }
}

/// What executing the two sections of a compressed block gives, once the
/// literals are decoded: the sequences are decoded from `rest` and
/// executed; a block without sequences puts out its literals, and is
/// `SequenceCountMismatch` if bytes follow the sequence count. It is
/// `SequenceCountMismatch` too if the literals and the matches of the
/// sequences together are more than a block may put out.
pub open spec fn spec_decode_block_sequences(
    scratch: DecoderScratchView,
    literals: Seq<u8>,
    rest: Seq<u8>,
) -> Result<DecoderScratchView, DecodeError> {
    match spec_parse_sequences_header(SequencesHeader::spec_new(), rest) {
        Err(e) => Err(e),
        Ok((header, header_len)) => if header.num_sequences == 0 {
            if rest.len() != header_len {
                Err(DecodeError::SequenceCountMismatch)
            } else {
                Ok(DecoderScratchView { buffer: spec_push(scratch.buffer, literals), ..scratch })
            }
        } else {
            match spec_decode_sequences(
                header,
                rest.subrange(header_len as int, rest.len() as int),
                scratch.fse,
            ) {
                Err(e) => Err(e),
                Ok((sequences, fse)) => if literals.len() + spec_match_total(
                    sequences,
                    sequences.len() as int,
                ) > ABSOLUTE_MAXIMUM_BLOCK_SIZE {
                    Err(DecodeError::SequenceCountMismatch)
                } else {
                    match spec_execute_sequences(
                        scratch.buffer,
                        scratch.offset_hist,
                        literals,
                        sequences,
                    ) {
                        Err(e) => Err(e),
                        Ok(done) => Ok(
                            DecoderScratchView {
                                huf: scratch.huf,
                                fse,
                                buffer: done.buffer,
                                offset_hist: done.history,
                            },
                        ),
                    }
                },
            }
        }
    }
}

/// What decoding the compressed block with the content `content` gives:
/// the literals section is decoded, then the sequences section. It is
/// `LiteralsHeaderCorrupt` if the literals are more than a block may put
/// out.
pub open spec fn spec_decompress_block(scratch: DecoderScratchView, content: Seq<u8>) -> Result<
    DecoderScratchView,
    DecodeError,
> {
    match spec_parse_literals_header(LiteralsSection::spec_new(), content) {
        Err(e) => Err(e),
        Ok((section, header_len)) => if section.regenerated_size > ABSOLUTE_MAXIMUM_BLOCK_SIZE {
            Err(DecodeError::LiteralsHeaderCorrupt)
        } else {
            let behind_header = content.subrange(header_len as int, content.len() as int);
            match spec_decode_literals(section, scratch.huf, behind_header) {
                Err(e) => Err(e),
                Ok((literals, huf, used)) => spec_decode_block_sequences(
                    DecoderScratchView { huf, ..scratch },
                    literals,
                    behind_header.subrange(used as int, behind_header.len() as int),
                ),
            }
        },
    }
}

/// The output of an RLE block: one byte, `count` times.
pub open spec fn spec_repeated(byte: u8, count: nat) -> Seq<u8> {
    Seq::new(count, |i: int| byte)
}

/// What decoding the block with the header `header` gives, whose content
/// starts at the start of `source`.
///
/// A raw block puts out its content; an RLE block its one byte, repeated;
/// a compressed block what its sections decode to. It is `ShortInput` if
/// `source` ends before the content does.
#[verifier::opaque]
pub open spec fn spec_decode_block_content(
    header: BlockHeader,
    scratch: DecoderScratchView,
    source: Seq<u8>,
) -> Result<DecoderScratchView, DecodeError> {
    if source.len() < header.content_size {
        Err(DecodeError::ShortInput)
    } else {
        let content = source.subrange(0, header.content_size as int);
        match header.block_type {
            BlockType::Raw => Ok(
                DecoderScratchView { buffer: spec_push(scratch.buffer, content), ..scratch },
            ),
            BlockType::RLE => if header.content_size < 1 {
                Err(DecodeError::ShortInput)
            } else {
                Ok(
                    DecoderScratchView {
                        buffer: spec_push(
                            scratch.buffer,
                            spec_repeated(content[0], header.decompressed_size as nat),
                        ),
                        ..scratch
                    },
                )
            },
            BlockType::Compressed => spec_decompress_block(scratch, content),
            BlockType::Reserved => Err(DecodeError::ReservedBlockType),
        }
    }
}

/// Reads the block header at the start of `raw`, as
/// [`spec_read_block_header`] describes.
pub fn read_block_header(raw: &[u8]) -> (res: Result<BlockHeader, DecodeError>)
    ensures
        res == spec_read_block_header(raw@),
{
    if raw.len() < BLOCK_HEADER_SIZE {
        return Err(DecodeError::ShortInput);
    }
    let first: u8 = raw[0];
    let type_code: u8 = (first / 2) % 4;
    proof {
        lemma2_to64();
        lemma_bits_value_bound(raw@, 3, 21);
    }
    let size: u64 = extract_bits(raw, 0, 3, 21);
    let block_type: BlockType = if type_code == 0 {
        BlockType::Raw
    } else if type_code == 1 {
        BlockType::RLE
    } else if type_code == 2 {
        BlockType::Compressed
    } else {
        return Err(DecodeError::ReservedBlockType);
    };
    if size > ABSOLUTE_MAXIMUM_BLOCK_SIZE as u64 {
        return Err(DecodeError::CorruptedBlockHeader);
    }
    let (decompressed_size, content_size): (u32, u32) = match block_type {
        BlockType::Raw => (size as u32, size as u32),
        BlockType::RLE => (size as u32, 1),
        _ => (0, size as u32),
    };
    Ok(BlockHeader { last_block: first % 2 == 1, block_type, decompressed_size, content_size })
}

/// The match lengths of more sequences are no less.
proof fn lemma_match_total_grows(sequences: Seq<Sequence>, upto: int, all: int)
    requires
        upto <= all,
    ensures
        spec_match_total(sequences, upto) <= spec_match_total(sequences, all),
    decreases all - upto,
{
    if upto < all {
        lemma_match_total_grows(sequences, upto, all - 1);
    }
}

/// Whether `literals` literals and the matches of `sequences` together are
/// more than `limit` bytes.
fn matches_exceed(sequences: &[Sequence], literals: usize, limit: usize) -> (res: bool)
    requires
        limit <= ABSOLUTE_MAXIMUM_BLOCK_SIZE,
    ensures
        res <==> literals + spec_match_total(sequences@, sequences@.len() as int) > limit,
{
    if literals > limit {
        return true;
    }
    let mut total: usize = literals;
    let mut idx: usize = 0;
    while idx < sequences.len()
        invariant
            idx <= sequences@.len(),
            limit <= ABSOLUTE_MAXIMUM_BLOCK_SIZE,
            total == literals + spec_match_total(sequences@, idx as int),
            total <= limit,
        decreases sequences@.len() - idx,
    {
        let ml: u32 = sequences[idx].ml;
        if ml as usize > limit - total {
            proof {
                lemma_match_total_grows(sequences@, idx + 1, sequences@.len() as int);
            }
            return true;
        }
        total = total + ml as usize;
        idx = idx + 1;
    }
    false
}

/// Decodes and executes the sequences section of a compressed block, as
/// [`spec_decode_block_sequences`] describes. The literals of the block
/// are in the scratch.
fn decode_block_sequences(scratch: &mut DecoderScratch, rest: &[u8]) -> (res: Result<
    (),
    DecodeError,
>)
    requires
        old(scratch).built_or_empty(),
    ensures
        final(scratch).built_or_empty(),
        match spec_decode_block_sequences(old(scratch)@, old(scratch).literals_buffer@, rest@) {
            Ok(after) => res is Ok && final(scratch)@ == after,
            Err(e) => res == Err::<(), DecodeError>(e),
        },
{
    let mut header = SequencesHeader::new();
    let header_len: u8 = match header.parse_from_header(rest) {
        Ok(len) => len,
        Err(e) => {
            return Err(e);
        },
    };
    if header.num_sequences == 0 {
        if rest.len() != header_len as usize {
            return Err(DecodeError::SequenceCountMismatch);
        }
        scratch.buffer.push(scratch.literals_buffer.as_slice());
        return Ok(());
    }
    match decode_sequences(
        &header,
        &rest[header_len as usize..rest.len()],
        &mut scratch.fse,
        &mut scratch.sequences,
    ) {
        Ok(()) => {},
        Err(e) => {
            return Err(e);
        },
    }
    if matches_exceed(
        scratch.sequences.as_slice(),
        scratch.literals_buffer.len(),
        ABSOLUTE_MAXIMUM_BLOCK_SIZE as usize,
    ) {
        return Err(DecodeError::SequenceCountMismatch);
    }
    execute_sequences(
        &mut scratch.buffer,
        scratch.literals_buffer.as_slice(),
        scratch.sequences.as_slice(),
        &mut scratch.offset_hist,
    )
}

/// Decodes a compressed block, as [`spec_decompress_block`] describes.
fn decompress_block(scratch: &mut DecoderScratch, content: &[u8]) -> (res: Result<(), DecodeError>)
    requires
        old(scratch).built_or_empty(),
    ensures
        final(scratch).built_or_empty(),
        match spec_decompress_block(old(scratch)@, content@) {
            Ok(after) => res is Ok && final(scratch)@ == after,
            Err(e) => res == Err::<(), DecodeError>(e),
        },
{
    let mut section = LiteralsSection::new();
    let header_len: u8 = match section.parse_from_header(content) {
        Ok(len) => len,
        Err(e) => {
            return Err(e);
        },
    };
    if section.regenerated_size > ABSOLUTE_MAXIMUM_BLOCK_SIZE {
        return Err(DecodeError::LiteralsHeaderCorrupt);
    }
    let behind_header: &[u8] = &content[header_len as usize..content.len()];
    scratch.literals_buffer.clear();
    let used: u32 = match decode_literals(
        &section,
        &mut scratch.huf,
        behind_header,
        &mut scratch.literals_buffer,
    ) {
        Ok(used) => used,
        Err(e) => {
            return Err(e);
        },
    };
    assert(scratch.literals_buffer@ =~= spec_decode_literals(
        section,
        old(scratch)@.huf,
        behind_header@,
    )->Ok_0.0);
    decode_block_sequences(scratch, &behind_header[used as usize..behind_header.len()])
}

/// Decodes the block with the header `header`, whose content starts at the
/// start of `source`, as [`spec_decode_block_content`] describes. On
/// success the output of the block has been appended to the buffer of the
/// scratch.
pub fn decode_block_content(header: &BlockHeader, scratch: &mut DecoderScratch, source: &[u8]) -> (res:
    Result<(), DecodeError>)
    requires
        old(scratch).built_or_empty(),
    ensures
        final(scratch).built_or_empty(),
        match spec_decode_block_content(*header, old(scratch)@, source@) {
            Ok(after) => res is Ok && final(scratch)@ == after,
            Err(e) => res == Err::<(), DecodeError>(e),
        },
{
    reveal(spec_decode_block_content);
    if source.len() < header.content_size as usize {
        return Err(DecodeError::ShortInput);
    }
    let content: &[u8] = &source[0..header.content_size as usize];
    match header.block_type {
        BlockType::Raw => {
            scratch.buffer.push(content);
            Ok(())
        },
        BlockType::RLE => {
            if header.content_size < 1 {
                return Err(DecodeError::ShortInput);
            }
            let byte: u8 = content[0];
            let mut run: Vec<u8> = Vec::new();
            let mut count: u32 = 0;
            while count < header.decompressed_size
                invariant
                    count <= header.decompressed_size,
                    run@ == spec_repeated(byte, count as nat),
                decreases header.decompressed_size - count,
            {
                run.push(byte);
                count = count + 1;
                assert(run@ =~= spec_repeated(byte, count as nat));
            }
            scratch.buffer.push(run.as_slice());
            Ok(())
        },
        BlockType::Compressed => decompress_block(scratch, content),
        BlockType::Reserved => Err(DecodeError::ReservedBlockType),
    }
}

/// Decoding a block lets nothing out of the buffer and changes neither
/// its window nor its dictionary content.
pub proof fn lemma_block_keeps_hashed(header: BlockHeader, scratch: DecoderScratchView, source: Seq<u8>)
    ensures
        spec_decode_block_content(header, scratch, source) matches Ok(after) ==> {
            &&& after.buffer.hashed == scratch.buffer.hashed
            &&& after.buffer.hash_seed == scratch.buffer.hash_seed
            &&& after.buffer.window_size == scratch.buffer.window_size
            &&& after.buffer.dict_content == scratch.buffer.dict_content
        },
{
    reveal(spec_decode_block_content);
    if source.len() >= header.content_size && header.block_type == BlockType::Compressed {
        let content = source.subrange(0, header.content_size as int);
        match spec_parse_literals_header(LiteralsSection::spec_new(), content) {
            Ok((section, header_len)) => {
                let behind_header = content.subrange(header_len as int, content.len() as int);
                match spec_decode_literals(section, scratch.huf, behind_header) {
                    Ok((literals, huf, used)) => {
                        let rest = behind_header.subrange(used as int, behind_header.len() as int);
                        match spec_parse_sequences_header(SequencesHeader::spec_new(), rest) {
                            Ok((seq_header, seq_len)) => {
                                if seq_header.num_sequences != 0 {
                                    match spec_decode_sequences(
                                        seq_header,
                                        rest.subrange(seq_len as int, rest.len() as int),
                                        scratch.fse,
                                    ) {
                                        Ok((sequences, fse)) => {
                                            lemma_execute_keeps_hashed(
                                                scratch.buffer,
                                                scratch.offset_hist,
                                                literals,
                                                sequences,
                                            );
                                        },
                                        Err(_) => {},
                                    }
                                }
                            },
                            Err(_) => {},
                        }
                    },
                    Err(_) => {},
                }
            },
            Err(_) => {},
        }
    }
}

/// An RLE block puts out its one byte as often as its header says, and
/// changes nothing else: it has no literals section and no sequences.
pub proof fn law_rle_block(header: BlockHeader, scratch: DecoderScratchView, source: Seq<u8>)
    requires
        header.block_type == BlockType::RLE,
        header.content_size == 1,
        source.len() >= 1,
    ensures
        spec_decode_block_content(header, scratch, source) == Ok::<
            DecoderScratchView,
            DecodeError,
        >(
            DecoderScratchView {
                buffer: spec_push(
                    scratch.buffer,
                    spec_repeated(source[0], header.decompressed_size as nat),
                ),
                ..scratch
            },
        ),
{
    reveal(spec_decode_block_content);
}

/// A raw block puts out its content as it is.
pub proof fn law_raw_block(header: BlockHeader, scratch: DecoderScratchView, source: Seq<u8>)
    requires
        header.block_type == BlockType::Raw,
        source.len() >= header.content_size,
    ensures
        spec_decode_block_content(header, scratch, source) == Ok::<
            DecoderScratchView,
            DecodeError,
        >(
            DecoderScratchView {
                buffer: spec_push(scratch.buffer, source.subrange(0, header.content_size as int)),
                ..scratch
            },
        ),
{
    reveal(spec_decode_block_content);
}

/// A compressed block whose sequences section counts no sequence puts out
/// its literals and nothing else.
pub proof fn law_block_without_sequences_emits_literals(
    scratch: DecoderScratchView,
    literals: Seq<u8>,
)
    ensures
        spec_decode_block_sequences(scratch, literals, seq![0u8]) == Ok::<
            DecoderScratchView,
            DecodeError,
        >(DecoderScratchView { buffer: spec_push(scratch.buffer, literals), ..scratch }),
{
}

} // verus!
