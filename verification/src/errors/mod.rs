//! The errors that decoding reports.

use vstd::prelude::*;
use vstd::string::StringExecFns;

verus! {

/// Why a piece of compressed data could not be decoded.
#[derive(Debug, Copy, Clone, PartialEq, Eq, Structural)]
pub enum DecodeError {
    /// The data does not start with the magic number it must start with.
    BadMagic,
    /// The frame header has a bit set that must not be set.
    UnsupportedFrameFlags,
    /// The frame asks for a window that is larger than this decoder allows.
    WindowTooLarge,
    /// A block header names the block type that does not exist.
    ReservedBlockType,
    /// A block header gives a size above the largest size of a block.
    CorruptedBlockHeader,
    /// The data ends before the item that is being read does.
    ShortInput,
    /// The header of a literals section names a type that does not exist.
    LiteralsHeaderCorrupt,
    /// A Huffman weight description does not describe a prefix code.
    HuffmanTableCorrupt,
    /// An FSE probability description is malformed or does not fill its table.
    FSEProbsInvalid,
    /// A backward bitstream was asked for more bits than it has left.
    BitstreamOverrun,
    /// A backward bitstream still had bits left when its decoder was done.
    BitstreamUnderrun,
    /// The literals of a block do not cover what its sequences ask for.
    SequenceCountMismatch,
    /// A sequence asks for a match at distance zero.
    ZeroOffset,
    /// A match reaches back further than the output that is still buffered.
    OffsetExceedsWindow,
    /// A match reaches back further than the dictionary content goes.
    DictionaryOffsetTooLarge,
}

impl DecodeError {
    /// What the error says, as text.
    pub open spec fn spec_message(self) -> Seq<char> {
        match self {
            DecodeError::BadMagic => "the data does not start with the expected magic number"@,
            DecodeError::UnsupportedFrameFlags => "the frame header has a reserved bit set"@,
            DecodeError::WindowTooLarge => "the frame asks for a window that is too large"@,
            DecodeError::ReservedBlockType => "a block has the reserved type"@,
            DecodeError::CorruptedBlockHeader => "a block is larger than a block may be"@,
            DecodeError::ShortInput => "the data ends before the item being read does"@,
            DecodeError::LiteralsHeaderCorrupt => "the literals section contradicts its header"@,
            DecodeError::HuffmanTableCorrupt => "the Huffman weights describe no prefix code"@,
            DecodeError::FSEProbsInvalid => "the FSE probabilities describe no table"@,
            DecodeError::BitstreamOverrun => "a bitstream has fewer bits than its decoder needs"@,
            DecodeError::BitstreamUnderrun => "a bitstream has bits left that nothing decodes"@,
            DecodeError::SequenceCountMismatch => "the sequences ask for more literals than the block has"@,
            DecodeError::ZeroOffset => "a sequence has a match at distance zero"@,
            DecodeError::OffsetExceedsWindow => "a match starts before the buffered output"@,
            DecodeError::DictionaryOffsetTooLarge => "a match starts before the dictionary content"@,
        }
    }

    /// What the error says, for display.
    pub fn message(&self) -> (res: &'static str)
        ensures
            res@ == self.spec_message(),
    {
        match self {
            DecodeError::BadMagic => "the data does not start with the expected magic number",
            DecodeError::UnsupportedFrameFlags => "the frame header has a reserved bit set",
            DecodeError::WindowTooLarge => "the frame asks for a window that is too large",
            DecodeError::ReservedBlockType => "a block has the reserved type",
            DecodeError::CorruptedBlockHeader => "a block is larger than a block may be",
            DecodeError::ShortInput => "the data ends before the item being read does",
            DecodeError::LiteralsHeaderCorrupt => "the literals section contradicts its header",
            DecodeError::HuffmanTableCorrupt => "the Huffman weights describe no prefix code",
            DecodeError::FSEProbsInvalid => "the FSE probabilities describe no table",
            DecodeError::BitstreamOverrun => "a bitstream has fewer bits than its decoder needs",
            DecodeError::BitstreamUnderrun => "a bitstream has bits left that nothing decodes",
            DecodeError::SequenceCountMismatch => "the sequences ask for more literals than the block has",
            DecodeError::ZeroOffset => "a sequence has a match at distance zero",
            DecodeError::OffsetExceedsWindow => "a match starts before the buffered output",
            DecodeError::DictionaryOffsetTooLarge => "a match starts before the dictionary content",
        }
    }
}

/// Why a frame could not be decoded.
#[derive(Debug, Copy, Clone, PartialEq, Eq, Structural)]
pub enum FrameDecoderError {
    /// The header of a block could not be read.
    FailedToReadBlockHeader(DecodeError),
    /// The content of a block could not be decoded.
    FailedToReadBlockBody(DecodeError),
    /// The frame ends before its checksum does.
    FailedToReadChecksum,
    /// The decoder has not been given a frame yet.
    NotYetInitialized,
    /// The header of the frame could not be read.
    FailedToInitialize(DecodeError),
    /// The buffered output could not be handed over.
    FailedToDrainDecodebuffer,
    /// The target is too small for what has to be written to it.
    TargetTooSmall,
    /// The frame names a dictionary, and the decoder has none.
    DictNotProvided,
    /// The frame names a dictionary other than those the decoder has.
    DictIdMismatch,
    /// The checksum of the output is not the one that the frame ends with.
    ChecksumMismatch,
}

impl FrameDecoderError {
    /// What the error says, as text: a sentence for the kind of failure,
    /// followed by what the cause says where there is one.
    pub open spec fn spec_message(self) -> Seq<char> {
        match self {
            FrameDecoderError::FailedToReadBlockBody(m) => "Failed to parse/decode block body: "@
                + m.spec_message(),
            FrameDecoderError::FailedToReadBlockHeader(m) => "Failed to parse block header: "@
                + m.spec_message(),
            FrameDecoderError::FailedToReadChecksum => "Failed to read checksum"@,
            FrameDecoderError::NotYetInitialized => "Decoder must initialized or reset before using it"@,
            FrameDecoderError::FailedToInitialize(m) => "Decoder encountered error while initializing: "@
                + m.spec_message(),
            FrameDecoderError::FailedToDrainDecodebuffer => "Decoder encountered error while draining the decodebuffer"@,
            FrameDecoderError::TargetTooSmall => "Target must have at least as many bytes as the contentsize of the frame reports"@,
            FrameDecoderError::DictNotProvided => "Frame header specified dictionary id that wasnt provided by add_dict() or reset_with_dict()"@,
            FrameDecoderError::DictIdMismatch => "Frame header specified a dictionary id other than those of the dictionaries provided"@,
            FrameDecoderError::ChecksumMismatch => "The checksum of the decoded data is not the checksum in the frame"@,
        }
    }

    /// What the error says, for display.
    pub fn message(&self) -> (res: String)
        ensures
            res@ == self.spec_message(),
    {
        match self {
            FrameDecoderError::FailedToReadBlockBody(m) => {
                String::from_str("Failed to parse/decode block body: ").concat(m.message())
            },
            FrameDecoderError::FailedToReadBlockHeader(m) => {
                String::from_str("Failed to parse block header: ").concat(m.message())
            },
            FrameDecoderError::FailedToReadChecksum => String::from_str("Failed to read checksum"),
            FrameDecoderError::NotYetInitialized => {
                String::from_str("Decoder must initialized or reset before using it")
            },
            FrameDecoderError::FailedToInitialize(m) => {
                String::from_str("Decoder encountered error while initializing: ").concat(
                    m.message(),
                )
            },
            FrameDecoderError::FailedToDrainDecodebuffer => {
                String::from_str("Decoder encountered error while draining the decodebuffer")
            },
            FrameDecoderError::TargetTooSmall => {
                String::from_str(
                    "Target must have at least as many bytes as the contentsize of the frame reports",
                )
            },
            FrameDecoderError::DictNotProvided => {
                String::from_str(
                    "Frame header specified dictionary id that wasnt provided by add_dict() or reset_with_dict()",
                )
            },
            FrameDecoderError::DictIdMismatch => {
                String::from_str(
                    "Frame header specified a dictionary id other than those of the dictionaries provided",
                )
            },
            FrameDecoderError::ChecksumMismatch => {
                String::from_str("The checksum of the decoded data is not the checksum in the frame")
            },
        }
    }
}

} // verus!
