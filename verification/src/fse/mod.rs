//! Finite State Entropy: building a decoding table from its compressed
//! description, and stepping through the table while reading a backward
//! bitstream.

pub mod bit_length;
pub mod probabilities;
pub mod table_spec;
pub mod fse_decoder;
pub mod description_laws;
