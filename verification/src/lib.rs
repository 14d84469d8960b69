//! A decoder for the Zstandard compressed stream format.
//!
//! The decoder is a pipeline of layers, each stated over a mathematical
//! model and proved to compute what the model says:
//!
//! - [`decoding::bits`]: a byte string as a string of bits; the forward
//!   and the backward bit reader;
//! - [`fse`] and [`huff0`]: the entropy tables, built from their
//!   descriptions;
//! - [`blocks`] and [`decoding`]: the headers and the two sections of a
//!   compressed block, the execution of sequences, the sliding-window
//!   output buffer with its running checksum, and dictionaries;
//! - [`frame`] and [`frame_decoder`]: the frame header and the decoder of
//!   whole frames, at once or piece by piece;
//! - [`streaming_decoder`]: the decisions of a decoder that pulls a frame
//!   through a source;
//! - [`frame_laws`] and [`stored_frame`]: what holds of decoding however
//!   the data is cut, and that stored data is given back.

pub mod blocks;
pub mod decoding;
pub mod errors;
pub mod frame;
pub mod frame_decoder;
pub mod frame_laws;
pub mod fse;
pub mod huff0;
pub mod io;
pub mod stored_frame;
pub mod streaming_decoder;

pub use frame_decoder::BlockDecodingStrategy;
pub use frame_decoder::FrameDecoder;
