use vstd::prelude::*;

verus! {

/// The four block types that a block header can name.
#[derive(Debug, Copy, Clone, PartialEq, Eq, Structural)]
pub enum BlockType {
    Raw,
    RLE,
    Compressed,
    Reserved,
}

impl BlockType {
    /// The name of the type, as text.
    pub open spec fn spec_name(self) -> Seq<char> {
        match self {
            BlockType::Raw => "Raw"@,
            BlockType::RLE => "RLE"@,
            BlockType::Compressed => "Compressed"@,
            BlockType::Reserved => "Reserved"@,
        }
    }

    /// The name of the type, for display.
    pub fn name(&self) -> (res: &'static str)
        ensures
            res@ == self.spec_name(),
    {
        match self {
            BlockType::Raw => "Raw",
            BlockType::RLE => "RLE",
            BlockType::Compressed => "Compressed",
            BlockType::Reserved => "Reserved",
        }
    }
}

/// The header that precedes every block of a frame.
#[derive(Debug, Copy, Clone)]
pub struct BlockHeader {
    /// Whether this is the last block of its frame.
    pub last_block: bool,
    pub block_type: BlockType,
    /// The number of bytes the block decodes to.
    pub decompressed_size: u32,
    /// The number of bytes the block occupies in the frame, after its header.
    pub content_size: u32,
}

} // verus!
