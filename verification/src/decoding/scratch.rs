//! The entropy tables that live as long as a frame does.

use vstd::prelude::*;
use crate::blocks::sequence_section::Sequence;
use crate::decoding::decodebuffer::{spec_fresh, Decodebuffer, DecodebufferView};
use crate::decoding::dictionary::{Dictionary, DictionaryView};
use crate::fse::fse_decoder::{FSETable, FSETableView};
use crate::huff0::huff0_decoder::HuffmanTable;
use crate::huff0::table_spec::HuffmanTableView;

verus! {

/// The Huffman table of the literals.
pub struct HuffmanScratch {
    pub table: HuffmanTable,
}

/// The three FSE tables of the sequences. A kind of code that is stored in
/// RLE mode has a table of one cell.
pub struct FSEScratch {
    pub offsets: FSETable,
    pub literal_lengths: FSETable,
    pub match_lengths: FSETable,
}

/// What an [`FSEScratch`] holds, as plain values.
pub struct FSEScratchView {
    pub offsets: FSETableView,
    pub literal_lengths: FSETableView,
    pub match_lengths: FSETableView,
}

impl View for HuffmanScratch {
    type V = HuffmanTableView;

    open spec fn view(&self) -> HuffmanTableView {
        self.table@
    }
}

impl View for FSEScratch {
    type V = FSEScratchView;

    open spec fn view(&self) -> FSEScratchView {
        FSEScratchView {
            offsets: self.offsets@,
            literal_lengths: self.literal_lengths@,
            match_lengths: self.match_lengths@,
        }
    }
}

/// A table that has not been built: it has no cells.
pub open spec fn spec_unbuilt_fse_table(table: FSETableView) -> bool {
    &&& table.decode.len() == 0
    &&& table.accuracy_log == 0
    &&& table.symbol_probabilities.len() == 0
}

impl HuffmanScratch {
    /// A scratch whose table has not been built.
    pub fn new() -> (res: HuffmanScratch)
        ensures
            res@.decode.len() == 0,
            res@.weights.len() == 0,
            res@.bits.len() == 0,
            res@.max_num_bits == 0,
            res.table.built_or_empty(),
    {
        HuffmanScratch { table: HuffmanTable::new() }
    }
}

impl FSEScratch {
    /// Whether each table has been built properly or not at all.
    pub open spec fn built_or_empty(&self) -> bool {
        &&& self.offsets.built_or_empty()
        &&& self.literal_lengths.built_or_empty()
        &&& self.match_lengths.built_or_empty()
    }

    /// A scratch whose tables have not been built.
    pub fn new() -> (res: FSEScratch)
        ensures
            spec_unbuilt_fse_table(res@.offsets),
            spec_unbuilt_fse_table(res@.literal_lengths),
            spec_unbuilt_fse_table(res@.match_lengths),
            res.built_or_empty(),
    {
        FSEScratch {
            offsets: FSETable::new(),
            literal_lengths: FSETable::new(),
            match_lengths: FSETable::new(),
        }
    }
}

/// All that decoding a frame keeps from block to block.
pub struct DecoderScratch {
    pub huf: HuffmanScratch,
    pub fse: FSEScratch,
    pub buffer: Decodebuffer,
    /// The three most recent match distances.
    pub offset_hist: [u32; 3],
    /// The literals of the block at hand.
    pub literals_buffer: Vec<u8>,
    /// The sequences of the block at hand.
    pub sequences: Vec<Sequence>,
}

/// What a [`DecoderScratch`] keeps from block to block, as plain values.
pub struct DecoderScratchView {
    pub huf: HuffmanTableView,
    pub fse: FSEScratchView,
    pub buffer: DecodebufferView,
    pub offset_hist: Seq<u32>,
}

impl View for DecoderScratch {
    type V = DecoderScratchView;

    open spec fn view(&self) -> DecoderScratchView {
        DecoderScratchView {
            huf: self.huf@,
            fse: self.fse@,
            buffer: self.buffer@,
            offset_hist: self.offset_hist@,
        }
    }
}

/// The scratch at the start of a frame without dictionary: no tables, an
/// empty buffer, and the recent distances 1, 4, 8.
pub open spec fn spec_fresh_scratch(window_size: usize) -> DecoderScratchView {
    DecoderScratchView {
        huf: HuffmanTableView {
            decode: Seq::empty(),
            weights: Seq::empty(),
            max_num_bits: 0,
            bits: Seq::empty(),
        },
        fse: FSEScratchView {
            offsets: spec_unbuilt_table(),
            literal_lengths: spec_unbuilt_table(),
            match_lengths: spec_unbuilt_table(),
        },
        buffer: spec_fresh(window_size),
        offset_hist: seq![1u32, 4u32, 8u32],
    }
}

/// The table that has not been built.
pub open spec fn spec_unbuilt_table() -> FSETableView {
    FSETableView { decode: Seq::empty(), accuracy_log: 0, symbol_probabilities: Seq::empty() }
}

/// The scratch at the start of a frame that uses the dictionary `dict`:
/// the tables, the recent distances and the content of the dictionary, and
/// an empty buffer.
pub open spec fn spec_scratch_with_dict(window_size: usize, dict: DictionaryView) -> DecoderScratchView {
    DecoderScratchView {
        huf: dict.huf,
        fse: dict.fse,
        buffer: DecodebufferView { dict_content: dict.dict_content, ..spec_fresh(window_size) },
        offset_hist: dict.offset_hist,
    }
}

impl DecoderScratch {
    /// Whether each entropy table has been built properly or not at all.
    pub open spec fn built_or_empty(&self) -> bool {
        &&& self.huf.table.built_or_empty()
        &&& self.fse.built_or_empty()
    }

    /// The scratch at the start of a frame without dictionary.
    pub fn new(window_size: usize) -> (res: DecoderScratch)
        ensures
            res@ == spec_fresh_scratch(window_size),
            res.built_or_empty(),
    {
        let res = DecoderScratch {
            huf: HuffmanScratch::new(),
            fse: FSEScratch::new(),
            buffer: Decodebuffer::new(window_size),
            offset_hist: [1, 4, 8],
            literals_buffer: Vec::new(),
            sequences: Vec::new(),
        };
        assert(res.offset_hist@ =~= seq![1u32, 4u32, 8u32]);
        assert(res.huf@.decode =~= Seq::empty());
        assert(res.huf@.weights =~= Seq::empty());
        assert(res.huf@.bits =~= Seq::empty());
        assert(res.fse@.offsets.decode =~= Seq::empty());
        assert(res.fse@.offsets.symbol_probabilities =~= Seq::empty());
        assert(res.fse@.literal_lengths.decode =~= Seq::empty());
        assert(res.fse@.literal_lengths.symbol_probabilities =~= Seq::empty());
        assert(res.fse@.match_lengths.decode =~= Seq::empty());
        assert(res.fse@.match_lengths.symbol_probabilities =~= Seq::empty());
        res
    }

    /// The scratch at the start of a frame that uses `dict`, which is used
    /// up by this.
    pub fn with_dict(window_size: usize, dict: Dictionary) -> (res: DecoderScratch)
        requires
            dict.built_or_empty(),
        ensures
            res@ == spec_scratch_with_dict(window_size, dict@),
            res.built_or_empty(),
    {
        let mut buffer = Decodebuffer::new(window_size);
        buffer.set_dict_content(dict.dict_content);
        DecoderScratch {
            huf: dict.huf,
            fse: dict.fse,
            buffer,
            offset_hist: dict.offset_hist,
            literals_buffer: Vec::new(),
            sequences: Vec::new(),
        }
    }
}

} // verus!
