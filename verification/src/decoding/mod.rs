//! The decoding machinery below the frame level.

pub mod bits;
pub mod bit_reader;
pub mod bit_reader_reverse;
pub mod block_decoder;
pub mod checksum;
pub mod decodebuffer;
pub mod dictionary;
pub mod literals_section_decoder;
pub mod scratch;
pub mod sequence_execution;
pub mod sequence_section_decoder;
