//! Huffman coding of literals: building the decoding table from its
//! description.

pub mod table_spec;
pub mod huff0_decoder;
pub mod description_laws;
