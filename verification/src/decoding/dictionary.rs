//! Parsing a dictionary.
//!
//! A dictionary is a magic number, an id, the four entropy tables that a
//! frame starts from, the three offsets that its offset history starts
//! from, and content that precedes the frame's own output.

use vstd::prelude::*;
use crate::decoding::bits::{lemma_rest_of_prefix, spec_is_prefix};
use crate::decoding::scratch::{FSEScratch, FSEScratchView, HuffmanScratch};
use crate::fse::description_laws::lemma_build_decoder_prefix as lemma_fse_table_prefix;
use crate::huff0::description_laws::lemma_build_decoder_prefix as lemma_huffman_table_prefix;
use crate::errors::DecodeError;
use crate::fse::fse_decoder::spec_build_decoder as spec_build_fse_decoder;
use crate::huff0::table_spec::{spec_build_decoder as spec_build_huffman_decoder, HuffmanTableView};

verus! {

/// The four bytes that a dictionary starts with: 0xEC30A437, little-endian.
pub const MAGIC_NUM: [u8; 4] = [0x37, 0xA4, 0x30, 0xEC];

/// The highest accuracy log of a table of offset codes.
pub const OF_MAX_LOG: u8 = 8;

/// The highest accuracy log of a table of match-length codes.
pub const ML_MAX_LOG: u8 = 9;

/// The highest accuracy log of a table of literal-length codes.
pub const LL_MAX_LOG: u8 = 9;

/// A dictionary: what a frame that names its id starts from.
pub struct Dictionary {
    /// The id by which frames name the dictionary.
    pub id: u32,
    pub fse: FSEScratch,
    pub huf: HuffmanScratch,
    pub dict_content: Vec<u8>,
    pub offset_hist: [u32; 3],
}

/// What a [`Dictionary`] holds, as plain values.
pub struct DictionaryView {
    pub id: u32,
    pub fse: FSEScratchView,
    pub huf: HuffmanTableView,
    pub dict_content: Seq<u8>,
    pub offset_hist: Seq<u32>,
}

impl View for Dictionary {
    type V = DictionaryView;

    open spec fn view(&self) -> DictionaryView {
        DictionaryView {
            id: self.id,
            fse: self.fse@,
            huf: self.huf@,
            dict_content: self.dict_content@,
            offset_hist: self.offset_hist@,
        }
    }
}

/// The number that the four bytes of `raw` from `at` on spell, the first
/// byte being the least significant.
pub open spec fn spec_u32_le(raw: Seq<u8>, at: int) -> u32
    recommends
        0 <= at,
        at + 4 <= raw.len(),
{
    (raw[at] + raw[at + 1] * 0x100 + raw[at + 2] * 0x1_0000 + raw[at + 3] * 0x100_0000) as u32
}

/// The rest of `raw` from byte `from` on.
pub open spec fn spec_tail(raw: Seq<u8>, from: int) -> Seq<u8> {
    raw.subrange(from, raw.len() as int)
}

/// What follows the entropy tables: three offsets, then the content.
pub open spec fn spec_decode_dict_end(
    id: u32,
    huf: HuffmanTableView,
    fse: FSEScratchView,
    end: Seq<u8>,
) -> Result<DictionaryView, DecodeError> {
    if end.len() < 12 {
        Err(DecodeError::ShortInput)
    } else {
        Ok(
            DictionaryView {
                id,
                fse,
                huf,
                dict_content: spec_tail(end, 12),
                offset_hist: seq![spec_u32_le(end, 0), spec_u32_le(end, 4), spec_u32_le(end, 8)],
            },
        )
    }
}

/// What follows the id of a dictionary: the Huffman table of the literals,
/// then the FSE tables of the offset, match-length and literal-length
/// codes, each starting where the one before ends; then the rest. An error
/// of a table is the error of the dictionary.
pub open spec fn spec_decode_dict_tables(id: u32, tables: Seq<u8>) -> Result<
    DictionaryView,
    DecodeError,
> {
    match spec_build_huffman_decoder(tables) {
        Err(e) => Err(e),
        Ok((huf, huf_size)) => {
            let of_start = spec_tail(tables, huf_size as int);
            match spec_build_fse_decoder(of_start, OF_MAX_LOG) {
                Err(e) => Err(e),
                Ok((offsets, of_size)) => {
                    let ml_start = spec_tail(of_start, of_size as int);
                    match spec_build_fse_decoder(ml_start, ML_MAX_LOG) {
                        Err(e) => Err(e),
                        Ok((match_lengths, ml_size)) => {
                            let ll_start = spec_tail(ml_start, ml_size as int);
                            match spec_build_fse_decoder(ll_start, LL_MAX_LOG) {
                                Err(e) => Err(e),
                                Ok((literal_lengths, ll_size)) => spec_decode_dict_end(
                                    id,
                                    huf,
                                    FSEScratchView { offsets, literal_lengths, match_lengths },
                                    spec_tail(ll_start, ll_size as int),
                                ),
                            }
                        },
                    }
                },
            }
        },
    }
}

/// The dictionary that `raw` holds.
///
/// It is `ShortInput` if `raw` ends before the magic number, the id, a
/// table or the offsets do, and `BadMagic` if it starts with four bytes
/// that are not the magic number.
pub open spec fn spec_decode_dict(raw: Seq<u8>) -> Result<DictionaryView, DecodeError> {
    if raw.len() < 4 {
        Err(DecodeError::ShortInput)
    } else if raw.subrange(0, 4) != MAGIC_NUM@ {
        Err(DecodeError::BadMagic)
    } else if raw.len() < 8 {
        Err(DecodeError::ShortInput)
    } else {
        spec_decode_dict_tables(spec_u32_le(raw, 4), spec_tail(raw, 8))
    }
}

/// Reads the four bytes of `raw` from `at` on as a little-endian number.
pub fn read_u32_le(raw: &[u8], at: usize) -> (res: u32)
    requires
        at + 4 <= raw@.len(),
    ensures
        res == spec_u32_le(raw@, at as int),
{
    raw[at] as u32 + raw[at + 1] as u32 * 0x100 + raw[at + 2] as u32 * 0x1_0000 + raw[at + 3] as u32
        * 0x100_0000
}

impl Dictionary {
    /// Whether each entropy table has been built properly or not at all.
    pub open spec fn built_or_empty(&self) -> bool {
        &&& self.huf.table.built_or_empty()
        &&& self.fse.built_or_empty()
    }

    /// A copy of the dictionary.
    pub fn duplicate(&self) -> (res: Dictionary)
        ensures
            res@ == self@,
    {
        Dictionary {
            id: self.id,
            fse: FSEScratch {
                offsets: self.fse.offsets.duplicate(),
                literal_lengths: self.fse.literal_lengths.duplicate(),
                match_lengths: self.fse.match_lengths.duplicate(),
            },
            huf: HuffmanScratch { table: self.huf.table.duplicate() },
            dict_content: vstd::slice::slice_to_vec(self.dict_content.as_slice()),
            offset_hist: self.offset_hist,
        }
    }

    /// Parses a dictionary, as [`spec_decode_dict`] describes.
    pub fn decode_dict(raw: &[u8]) -> (res: Result<Dictionary, DecodeError>)
        ensures
            match spec_decode_dict(raw@) {
                Ok(dict) => res matches Ok(got) && got@ == dict,
                Err(e) => res matches Err(got) && got == e,
            },
            res matches Ok(got) ==> {
                &&& got.huf.table.valid()
                &&& got.fse.offsets.valid()
                &&& got.fse.match_lengths.valid()
                &&& got.fse.literal_lengths.valid()
                &&& got.built_or_empty()
            },
    {
        let mut fse = FSEScratch::new();
        let mut huf = HuffmanScratch::new();

        if raw.len() < 4 {
            return Err(DecodeError::ShortInput);
        }
        let magic = MAGIC_NUM;
        if raw[0] != magic[0] || raw[1] != magic[1] || raw[2] != magic[2] || raw[3] != magic[3] {
            assert(raw@.subrange(0, 4)[0] == raw@[0]);
            assert(raw@.subrange(0, 4)[1] == raw@[1]);
            assert(raw@.subrange(0, 4)[2] == raw@[2]);
            assert(raw@.subrange(0, 4)[3] == raw@[3]);
            return Err(DecodeError::BadMagic);
        }
        assert(raw@.subrange(0, 4) =~= MAGIC_NUM@);
        if raw.len() < 8 {
            return Err(DecodeError::ShortInput);
        }
        let id: u32 = read_u32_le(raw, 4);

        let raw_tables: &[u8] = &raw[8..raw.len()];
        let huf_size: u32 = match huf.table.build_decoder(raw_tables) {
            Ok(size) => size,
            Err(e) => {
                return Err(e);
            },
        };
        let raw_tables: &[u8] = &raw_tables[huf_size as usize..raw_tables.len()];

        let of_size: usize = match fse.offsets.build_decoder(raw_tables, OF_MAX_LOG) {
            Ok(size) => size,
            Err(e) => {
                return Err(e);
            },
        };
        let raw_tables: &[u8] = &raw_tables[of_size..raw_tables.len()];

        let ml_size: usize = match fse.match_lengths.build_decoder(raw_tables, ML_MAX_LOG) {
            Ok(size) => size,
            Err(e) => {
                return Err(e);
            },
        };
        let raw_tables: &[u8] = &raw_tables[ml_size..raw_tables.len()];

        let ll_size: usize = match fse.literal_lengths.build_decoder(raw_tables, LL_MAX_LOG) {
            Ok(size) => size,
            Err(e) => {
                return Err(e);
            },
        };
        let raw_tables: &[u8] = &raw_tables[ll_size..raw_tables.len()];

        if raw_tables.len() < 12 {
            return Err(DecodeError::ShortInput);
        }
        let offset1: u32 = read_u32_le(raw_tables, 0);
        let offset2: u32 = read_u32_le(raw_tables, 4);
        let offset3: u32 = read_u32_le(raw_tables, 8);
        let offset_hist: [u32; 3] = [offset1, offset2, offset3];
        assert(offset_hist@ =~= seq![offset1, offset2, offset3]);

        let raw_content: &[u8] = &raw_tables[12..raw_tables.len()];
        let dict_content: Vec<u8> = vstd::slice::slice_to_vec(raw_content);

        Ok(Dictionary { id, fse, huf, dict_content, offset_hist })
    }
}

/// The number of bytes of a dictionary before its content: the magic
/// number, the id, the tables and the three offsets.
pub open spec fn spec_dict_header_len(raw: Seq<u8>, dict: DictionaryView) -> int {
    raw.len() - dict.dict_content.len()
}

/// The tables and offsets of a dictionary that are cut short are refused
/// as short input.
pub proof fn lemma_truncated_dict_tables(id: u32, part: Seq<u8>, whole: Seq<u8>)
    requires
        spec_is_prefix(part, whole),
        whole.len() <= usize::MAX,
        spec_decode_dict_tables(id, whole) matches Ok(dict) && part.len() < spec_dict_header_len(
            whole,
            dict,
        ),
    ensures
        spec_decode_dict_tables(id, part) == Err::<DictionaryView, DecodeError>(
            DecodeError::ShortInput,
        ),
{
    lemma_huffman_table_prefix(part, whole);
    match spec_build_huffman_decoder(part) {
        Ok((huf, huf_size)) => {
            let of_part = spec_tail(part, huf_size as int);
            let of_whole = spec_tail(whole, huf_size as int);
            lemma_rest_of_prefix(part, whole, huf_size as int);
            lemma_fse_table_prefix(of_part, of_whole, OF_MAX_LOG);
            match spec_build_fse_decoder(of_part, OF_MAX_LOG) {
                Ok((offsets, of_size)) => {
                    let ml_part = spec_tail(of_part, of_size as int);
                    let ml_whole = spec_tail(of_whole, of_size as int);
                    lemma_rest_of_prefix(of_part, of_whole, of_size as int);
                    lemma_fse_table_prefix(ml_part, ml_whole, ML_MAX_LOG);
                    match spec_build_fse_decoder(ml_part, ML_MAX_LOG) {
                        Ok((match_lengths, ml_size)) => {
                            let ll_part = spec_tail(ml_part, ml_size as int);
                            let ll_whole = spec_tail(ml_whole, ml_size as int);
                            lemma_rest_of_prefix(ml_part, ml_whole, ml_size as int);
                            lemma_fse_table_prefix(ll_part, ll_whole, LL_MAX_LOG);
                            match spec_build_fse_decoder(ll_part, LL_MAX_LOG) {
                                Ok((literal_lengths, ll_size)) => {
                                    let end_part = spec_tail(ll_part, ll_size as int);
                                    let end_whole = spec_tail(ll_whole, ll_size as int);
                                    assert(end_whole.len() - end_part.len() == whole.len()
                                        - part.len());
                                    assert(spec_tail(end_whole, 12).len() == end_whole.len() - 12);
                                },
                                Err(_) => {},
                            }
                        },
                        Err(_) => {},
                    }
                },
                Err(_) => {},
            }
        },
        Err(_) => {},
    }
}

/// A dictionary that is cut short anywhere before its content is refused
/// as short input: if `raw` holds a dictionary, no prefix of `raw` that
/// ends within the magic number, the id, the tables or the offsets does.
pub proof fn law_truncated_dictionary_is_short_input(raw: Seq<u8>, cut: int)
    requires
        raw.len() <= usize::MAX,
        spec_decode_dict(raw) matches Ok(dict) && 0 <= cut < spec_dict_header_len(raw, dict),
    ensures
        spec_decode_dict(raw.subrange(0, cut)) == Err::<DictionaryView, DecodeError>(
            DecodeError::ShortInput,
        ),
{
    let part = raw.subrange(0, cut);
    assert(spec_is_prefix(part, raw));
    if cut >= 4 {
        assert(part.subrange(0, 4) =~= raw.subrange(0, 4));
    }
    if cut >= 8 {
        assert(part[4] == raw[4] && part[5] == raw[5] && part[6] == raw[6] && part[7] == raw[7]);
        lemma_rest_of_prefix(part, raw, 8);
        lemma_truncated_dict_tables(spec_u32_le(raw, 4), spec_tail(part, 8), spec_tail(raw, 8));
    }
}

} // verus!
