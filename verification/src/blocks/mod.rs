//! What a block is made of: its header and the headers of the two sections
//! of a compressed block.

pub mod block;
pub mod literals_section;
pub mod sequence_section;
