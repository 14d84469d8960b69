//! Decoding the literals section of a compressed block.

use vstd::prelude::*;
use crate::blocks::literals_section::{LiteralsSection, LiteralsSectionType};
use crate::decoding::scratch::HuffmanScratch;
use crate::errors::DecodeError;
use crate::huff0::huff0_decoder::decode_stream;
use crate::huff0::table_spec::{
    spec_build_decoder, spec_decode_stream, spec_table_valid, Entry, HuffmanTableView,
};

verus! {

/// The number that the two bytes of `raw` from `at` on spell, the first
/// byte being the least significant.
pub open spec fn spec_u16_le(raw: Seq<u8>, at: int) -> nat {
    (raw[at] + raw[at + 1] * 0x100) as nat
}

/// The number of literals that each of the first three of four streams
/// holds: a quarter of all, rounded up.
pub open spec fn spec_quarter(regenerated_size: u32) -> nat {
    ((regenerated_size + 3) / 4) as nat
}

/// The symbols of `stream` behind those in `out`, which must be `want` in
/// all; else the section contradicts its header.
pub open spec fn spec_decode_counted(
    decode: Seq<Entry>,
    max_bits: u8,
    stream: Seq<u8>,
    out: Seq<u8>,
    want: nat,
) -> Result<Seq<u8>, DecodeError> {
    match spec_decode_stream(decode, max_bits, stream, out) {
        Err(e) => Err(e),
        Ok(longer) => if longer.len() != want {
            Err(DecodeError::LiteralsHeaderCorrupt)
        } else {
            Ok(longer)
        },
    }
}

/// The literals of four streams. Three two-byte sizes say where the first
/// three streams end; the fourth takes the rest of `region`. Each of the
/// first three streams holds a quarter of the literals, the fourth what
/// remains.
pub open spec fn spec_four_streams(
    decode: Seq<Entry>,
    max_bits: u8,
    region: Seq<u8>,
    regenerated_size: u32,
) -> Result<Seq<u8>, DecodeError> {
    if region.len() < 6 {
        Err(DecodeError::LiteralsHeaderCorrupt)
    } else {
        let jump1 = spec_u16_le(region, 0) as int;
        let jump2 = jump1 + spec_u16_le(region, 2);
        let jump3 = jump2 + spec_u16_le(region, 4);
        let data = region.subrange(6, region.len() as int);
        let quarter = spec_quarter(regenerated_size);
        if data.len() < jump3 {
            Err(DecodeError::LiteralsHeaderCorrupt)
        } else {
            match spec_decode_counted(decode, max_bits, data.subrange(0, jump1), Seq::empty(), quarter) {
                Err(e) => Err(e),
                Ok(out1) => match spec_decode_counted(
                    decode,
                    max_bits,
                    data.subrange(jump1, jump2),
                    out1,
                    2 * quarter,
                ) {
                    Err(e) => Err(e),
                    Ok(out2) => match spec_decode_counted(
                        decode,
                        max_bits,
                        data.subrange(jump2, jump3),
                        out2,
                        3 * quarter,
                    ) {
                        Err(e) => Err(e),
                        Ok(out3) => spec_decode_counted(
                            decode,
                            max_bits,
                            data.subrange(jump3, data.len() as int),
                            out3,
                            regenerated_size as nat,
                        ),
                    },
                },
            }
        }
    }
}

/// The Huffman-coded literals of a section, with the table that decodes
/// them and the number of bytes of the section.
///
/// A compressed section starts with the description of its table; a
/// treeless one uses `table`, the table of the block before, and is
/// `HuffmanTableCorrupt` if there is none. It is `ShortInput` if `source`
/// ends before the section does, and `LiteralsHeaderCorrupt` if the section
/// does not hold what its header says.
pub open spec fn spec_decompress_literals(
    section: LiteralsSection,
    table: HuffmanTableView,
    source: Seq<u8>,
) -> Result<(Seq<u8>, HuffmanTableView, u32), DecodeError> {
    if section.compressed_size is None || section.num_streams is None {
        Err(DecodeError::LiteralsHeaderCorrupt)
    } else {
        let compressed_size = section.compressed_size->0;
        if source.len() < compressed_size {
            Err(DecodeError::ShortInput)
        } else {
            let region = source.subrange(0, compressed_size as int);
            let built: Result<(HuffmanTableView, u32), DecodeError> = if section.ls_type
                == LiteralsSectionType::Compressed {
                spec_build_decoder(region)
            } else if table.max_num_bits == 0 {
                Err(DecodeError::HuffmanTableCorrupt)
            } else {
                Ok((table, 0u32))
            };
            match built {
                Err(e) => Err(e),
                Ok((table, used)) => {
                    let streams = region.subrange(used as int, region.len() as int);
                    let decoded = if section.num_streams == Some(4u8) {
                        spec_four_streams(
                            table.decode,
                            table.max_num_bits,
                            streams,
                            section.regenerated_size,
                        )
                    } else {
                        spec_decode_counted(
                            table.decode,
                            table.max_num_bits,
                            streams,
                            Seq::empty(),
                            section.regenerated_size as nat,
                        )
                    };
                    match decoded {
                        Err(e) => Err(e),
                        Ok(literals) => Ok((literals, table, compressed_size)),
                    }
                },
            }
        }
    }
}

/// The literals of a section, with the Huffman table after it and the
/// number of bytes of the section.
///
/// A raw section holds its literals as they are; an RLE section holds one
/// byte, which is repeated; the two other types are Huffman-coded. It is
/// `ShortInput` if `source` ends before the section does.
pub open spec fn spec_decode_literals(
    section: LiteralsSection,
    table: HuffmanTableView,
    source: Seq<u8>,
) -> Result<(Seq<u8>, HuffmanTableView, u32), DecodeError> {
    match section.ls_type {
        LiteralsSectionType::Raw => if source.len() < section.regenerated_size {
            Err(DecodeError::ShortInput)
        } else {
            Ok(
                (
                    source.subrange(0, section.regenerated_size as int),
                    table,
                    section.regenerated_size,
                ),
            )
        },
        LiteralsSectionType::RLE => if source.len() < 1 {
            Err(DecodeError::ShortInput)
        } else {
            Ok((Seq::new(section.regenerated_size as nat, |i: int| source[0]), table, 1u32))
        },
        _ => spec_decompress_literals(section, table, source),
    }
}

/// Decodes one stream behind `out`, which must then hold `want` symbols.
fn decode_counted(
    scratch: &HuffmanScratch,
    stream: &[u8],
    out: &mut Vec<u8>,
    want: usize,
) -> (res: Result<(), DecodeError>)
    requires
        scratch.table.valid(),
    ensures
        match spec_decode_counted(
            scratch@.decode,
            scratch@.max_num_bits,
            stream@,
            old(out)@,
            want as nat,
        ) {
            Ok(longer) => res is Ok && final(out)@ == longer,
            Err(e) => res == Err::<(), DecodeError>(e),
        },
{
    match decode_stream(&scratch.table, stream, out) {
        Ok(()) => {},
        Err(e) => {
            return Err(e);
        },
    }
    if out.len() != want {
        return Err(DecodeError::LiteralsHeaderCorrupt);
    }
    Ok(())
}

/// Decodes the four streams of `region`, as [`spec_four_streams`]
/// describes.
fn decode_four_streams(scratch: &HuffmanScratch, region: &[u8], regenerated_size: u32) -> (res:
    Result<Vec<u8>, DecodeError>)
    requires
        scratch.table.valid(),
    ensures
        match spec_four_streams(
            scratch@.decode,
            scratch@.max_num_bits,
            region@,
            regenerated_size,
        ) {
            Ok(literals) => res matches Ok(out) && out@ == literals,
            Err(e) => res matches Err(got) && got == e,
        },
{
    if region.len() < 6 {
        return Err(DecodeError::LiteralsHeaderCorrupt);
    }
    let jump1: usize = region[0] as usize + region[1] as usize * 0x100;
    let jump2: usize = jump1 + region[2] as usize + region[3] as usize * 0x100;
    let jump3: usize = jump2 + region[4] as usize + region[5] as usize * 0x100;
    let data: &[u8] = &region[6..region.len()];
    if data.len() < jump3 {
        return Err(DecodeError::LiteralsHeaderCorrupt);
    }
    let quarter: usize = ((regenerated_size as u64 + 3) / 4) as usize;
    let mut out: Vec<u8> = Vec::new();
    match decode_counted(scratch, &data[0..jump1], &mut out, quarter) {
        Ok(()) => {},
        Err(e) => {
            return Err(e);
        },
    }
    match decode_counted(scratch, &data[jump1..jump2], &mut out, 2 * quarter) {
        Ok(()) => {},
        Err(e) => {
            return Err(e);
        },
    }
    match decode_counted(scratch, &data[jump2..jump3], &mut out, 3 * quarter) {
        Ok(()) => {},
        Err(e) => {
            return Err(e);
        },
    }
    match decode_counted(scratch, &data[jump3..data.len()], &mut out, regenerated_size as usize) {
        Ok(()) => {},
        Err(e) => {
            return Err(e);
        },
    }
    Ok(out)
}

/// Decodes the Huffman-coded literals of a section, as
/// [`spec_decompress_literals`] describes.
fn decompress_literals(
    section: &LiteralsSection,
    scratch: &mut HuffmanScratch,
    source: &[u8],
    target: &mut Vec<u8>,
) -> (res: Result<u32, DecodeError>)
    requires
        old(scratch).table.built_or_empty(),
    ensures
        final(scratch).table.built_or_empty(),
        match spec_decompress_literals(*section, old(scratch)@, source@) {
            Ok((literals, table, bytes)) => {
                &&& res == Ok::<u32, DecodeError>(bytes)
                &&& final(target)@ == old(target)@ + literals
                &&& final(scratch)@ == table
            },
            Err(e) => res == Err::<u32, DecodeError>(e) && final(target)@ == old(target)@,
        },
{
    let compressed_size: u32 = match section.compressed_size {
        Some(size) => size,
        None => {
            return Err(DecodeError::LiteralsHeaderCorrupt);
        },
    };
    let num_streams: u8 = match section.num_streams {
        Some(streams) => streams,
        None => {
            return Err(DecodeError::LiteralsHeaderCorrupt);
        },
    };
    if source.len() < compressed_size as usize {
        return Err(DecodeError::ShortInput);
    }
    let region: &[u8] = &source[0..compressed_size as usize];
    let mut used: u32 = 0;
    match section.ls_type {
        LiteralsSectionType::Compressed => {
            used = match scratch.table.build_decoder(region) {
                Ok(used) => used,
                Err(e) => {
                    return Err(e);
                },
            };
        },
        _ => {
            if scratch.table.max_num_bits == 0 {
                return Err(DecodeError::HuffmanTableCorrupt);
            }
        },
    }
    let streams: &[u8] = &region[used as usize..region.len()];
    let literals: Vec<u8> = if num_streams == 4 {
        match decode_four_streams(scratch, streams, section.regenerated_size) {
            Ok(literals) => literals,
            Err(e) => {
                return Err(e);
            },
        }
    } else {
        let mut out: Vec<u8> = Vec::new();
        match decode_counted(scratch, streams, &mut out, section.regenerated_size as usize) {
            Ok(()) => {},
            Err(e) => {
                return Err(e);
            },
        }
        out
    };
    target.extend_from_slice(literals.as_slice());
    assert(target@ =~= old(target)@ + literals@);
    Ok(compressed_size)
}

/// Decodes the literals of a section and appends them to `target`, as
/// [`spec_decode_literals`] describes; returns the number of bytes of the
/// section. On an error `target` is left as it was.
pub fn decode_literals(
    section: &LiteralsSection,
    scratch: &mut HuffmanScratch,
    source: &[u8],
    target: &mut Vec<u8>,
) -> (res: Result<u32, DecodeError>)
    requires
        old(scratch).table.built_or_empty(),
    ensures
        final(scratch).table.built_or_empty(),
        match spec_decode_literals(*section, old(scratch)@, source@) {
            Ok((literals, table, bytes)) => {
                &&& res == Ok::<u32, DecodeError>(bytes)
                &&& final(target)@ == old(target)@ + literals
                &&& final(scratch)@ == table
            },
            Err(e) => res == Err::<u32, DecodeError>(e) && final(target)@ == old(target)@,
        },
{
    match section.ls_type {
        LiteralsSectionType::Raw => {
            let size: usize = section.regenerated_size as usize;
            if source.len() < size {
                return Err(DecodeError::ShortInput);
            }
            target.extend_from_slice(&source[0..size]);
            assert(target@ =~= old(target)@ + source@.subrange(0, size as int));
            Ok(section.regenerated_size)
        },
        LiteralsSectionType::RLE => {
            if source.len() < 1 {
                return Err(DecodeError::ShortInput);
            }
            let byte: u8 = source[0];
            let mut count: u32 = 0;
            while count < section.regenerated_size
                invariant
                    count <= section.regenerated_size,
                    target@ == old(target)@ + Seq::new(count as nat, |i: int| byte),
                decreases section.regenerated_size - count,
            {
                target.push(byte);
                count = count + 1;
                assert(target@ =~= old(target)@ + Seq::new(count as nat, |i: int| byte));
            }
            Ok(1)
        },
        _ => decompress_literals(section, scratch, source, target),
    }
}

} // verus!
