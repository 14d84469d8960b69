//! What the Huffman decoding table of a weight description is.
//!
//! Every symbol has a weight. A symbol of weight 0 does not occur; one of
//! weight `w` has a code that takes `2^(w-1)` of the `2^max_bits` cells of
//! the table. The weights are stored either as nibbles or compressed with
//! FSE, two states taking turns; the weight of the last symbol is not
//! stored: it is what fills the table.

use vstd::prelude::*;
use vstd::arithmetic::power2::pow2;
use crate::decoding::bit_reader_reverse::{spec_peek, spec_stream_bits};
use crate::decoding::bits::bits_value;
use crate::errors::DecodeError;
use crate::fse::bit_length::spec_bit_length;
use crate::fse::fse_decoder::spec_build_decoder as spec_build_fse_decoder;
use crate::fse::table_spec::Entry as FSEEntry;

verus! {

/// No code is longer than this.
pub const MAX_MAX_NUM_BITS: u8 = 11;

/// The highest accuracy log of a table that compresses weights.
pub const MAX_WEIGHT_TABLE_LOG: u8 = 6;

/// A description stores at most this many weights.
pub const MAX_STORED_WEIGHTS: usize = 255;

/// One cell of a Huffman decoding table: the symbol whose code starts the
/// bits that index the cell, and the length of that code.
#[derive(Debug, Copy, Clone, PartialEq, Eq, Structural)]
pub struct Entry {
    pub symbol: u8,
    pub num_bits: u8,
}

/// What a Huffman table holds, as plain values.
pub struct HuffmanTableView {
    pub decode: Seq<Entry>,
    /// The stored weights, without the one of the last symbol.
    pub weights: Seq<u8>,
    pub max_num_bits: u8,
    /// The code length of every symbol, the last one included; 0 for a
    /// symbol that does not occur.
    pub bits: Seq<u8>,
}

/// `count` weights stored as nibbles behind the header byte of `source`,
/// the high nibble of a byte first.
pub open spec fn spec_direct_weights(source: Seq<u8>, count: nat) -> Seq<u8> {
    Seq::new(
        count,
        |i: int|
            if i % 2 == 0 {
                source[1 + i / 2] / 16
            } else {
                source[1 + i / 2] % 16
            },
    )
}

/// The weights that two FSE states decode in turns from the `bits` lowest
/// bits of `stream`, when the state whose turn it is stands at `current`,
/// the other one at `other`, and `weights` have been decoded.
///
/// A state gives its symbol and then steps on; when the stream has too few
/// bits left for the step, the other state gives its symbol and the
/// decoding is done. More than 255 weights are refused.
pub open spec fn spec_decode_weights(
    table: Seq<FSEEntry>,
    stream: Seq<u8>,
    bits: nat,
    current: nat,
    other: nat,
    weights: Seq<u8>,
) -> Result<Seq<u8>, DecodeError>
    decreases MAX_STORED_WEIGHTS - weights.len(),
{
    if weights.len() + 2 > MAX_STORED_WEIGHTS {
        Err(DecodeError::HuffmanTableCorrupt)
    } else {
        let cell = table[current as int];
        let longer = weights.push(cell.symbol);
        if bits < cell.num_bits {
            Ok(longer.push(table[other as int].symbol))
        } else {
            let below = (bits - cell.num_bits) as nat;
            spec_decode_weights(
                table,
                stream,
                below,
                other,
                (cell.base_line + bits_value(stream, below as int, cell.num_bits as nat)) as nat,
                longer,
            )
        }
    }
}

/// The weights that the FSE-compressed description `region` holds: a table
/// description, then a backward stream that starts with the two first
/// states. Whatever is wrong with it, the error is `HuffmanTableCorrupt`.
pub open spec fn spec_compressed_weights(region: Seq<u8>) -> Result<Seq<u8>, DecodeError> {
    match spec_build_fse_decoder(region, MAX_WEIGHT_TABLE_LOG) {
        Err(_) => Err(DecodeError::HuffmanTableCorrupt),
        Ok((table, used)) => {
            let stream = region.subrange(used as int, region.len() as int);
            let log = table.accuracy_log as nat;
            match spec_stream_bits(stream) {
                None => Err(DecodeError::HuffmanTableCorrupt),
                Some(bits) => if bits < 2 * log {
                    Err(DecodeError::HuffmanTableCorrupt)
                } else {
                    spec_decode_weights(
                        table.decode,
                        stream,
                        (bits - 2 * log) as nat,
                        bits_value(stream, bits - log, log),
                        bits_value(stream, bits - 2 * log, log),
                        Seq::empty(),
                    )
                },
            }
        },
    }
}

/// The weights that the description at the start of `source` stores, and
/// the number of bytes of the description.
///
/// A header byte below 128 is the size of an FSE-compressed description; a
/// higher one, less 127, is the number of weights stored as nibbles. It is
/// `ShortInput` if `source` ends before the description does.
pub open spec fn spec_read_weights(source: Seq<u8>) -> Result<(Seq<u8>, u32), DecodeError> {
    if source.len() == 0 {
        Err(DecodeError::ShortInput)
    } else if source[0] < 128 {
        let size = source[0] as int;
        if source.len() < 1 + size {
            Err(DecodeError::ShortInput)
        } else {
            match spec_compressed_weights(source.subrange(1, 1 + size)) {
                Err(e) => Err(e),
                Ok(weights) => Ok((weights, (1 + size) as u32)),
            }
        }
    } else {
        let count = (source[0] - 127) as nat;
        let bytes = (count + 1) / 2;
        if source.len() < 1 + bytes {
            Err(DecodeError::ShortInput)
        } else {
            Ok((spec_direct_weights(source, count), (1 + bytes) as u32))
        }
    }
}

/// The number of cells that a symbol of weight `w` takes.
pub open spec fn spec_weight_value(w: u8) -> nat {
    if w == 0 {
        0
    } else {
        pow2((w - 1) as nat)
    }
}

/// The cells that the first `upto` symbols take together.
pub open spec fn spec_weight_sum(weights: Seq<u8>, upto: int) -> nat
    decreases upto,
{
    if upto <= 0 {
        0
    } else {
        spec_weight_sum(weights, upto - 1) + spec_weight_value(weights[upto - 1])
    }
}

/// The cells of the table that are laid out once all symbols of a weight
/// below `w` and the symbols below `s` of weight `w` have theirs. The
/// symbols take their cells by rising weight, and by rising symbol within
/// one weight; a symbol of weight `w` has a code of `max_bits + 1 - w` bits.
pub open spec fn spec_cells(weights: Seq<u8>, max_bits: u8, w: int, s: int) -> Seq<Entry>
    decreases w, s,
{
    if w <= 0 {
        Seq::empty()
    } else if s <= 0 {
        spec_cells(weights, max_bits, w - 1, weights.len() as int)
    } else {
        let before = spec_cells(weights, max_bits, w, s - 1);
        if weights[s - 1] == w {
            before + Seq::new(
                pow2((w - 1) as nat),
                |i: int| Entry { symbol: (s - 1) as u8, num_bits: (max_bits + 1 - w) as u8 },
            )
        } else {
            before
        }
    }
}

/// The code length of each symbol.
pub open spec fn spec_code_lengths(weights: Seq<u8>, max_bits: u8) -> Seq<u8> {
    Seq::new(
        weights.len(),
        |s: int|
            if weights[s] > 0 {
                (max_bits + 1 - weights[s]) as u8
            } else {
                0u8
            },
    )
}

/// The length of the longest code, given the cells that the stored weights
/// take: the table is the next power of two above them.
pub open spec fn spec_max_bits(weights: Seq<u8>) -> nat {
    spec_bit_length(spec_weight_sum(weights, weights.len() as int))
}

/// The cells that the stored weights leave to the last symbol.
pub open spec fn spec_left_over(weights: Seq<u8>) -> int {
    pow2(spec_max_bits(weights)) - spec_weight_sum(weights, weights.len() as int)
}

/// The weight of the last symbol, which is not stored.
pub open spec fn spec_last_weight(weights: Seq<u8>) -> nat {
    spec_bit_length(spec_left_over(weights) as nat)
}

/// Whether the stored weights describe a table: there are at most 255 of
/// them, none is above 11 and not all are 0, no code is longer than 11
/// bits, and what is left to the last symbol is a power of two.
pub open spec fn spec_weights_ok(weights: Seq<u8>) -> bool {
    &&& weights.len() <= MAX_STORED_WEIGHTS
    &&& forall|s: int| 0 <= s < weights.len() ==> weights[s] <= MAX_MAX_NUM_BITS
    &&& spec_weight_sum(weights, weights.len() as int) > 0
    &&& spec_max_bits(weights) <= MAX_MAX_NUM_BITS
    &&& spec_left_over(weights) == pow2((spec_last_weight(weights) - 1) as nat)
}

/// The table of the stored weights `weights`, or `HuffmanTableCorrupt` if
/// they describe none.
pub open spec fn spec_table_from_weights(weights: Seq<u8>) -> Result<
    HuffmanTableView,
    DecodeError,
> {
    if !spec_weights_ok(weights) {
        Err(DecodeError::HuffmanTableCorrupt)
    } else {
        let max_bits = spec_max_bits(weights) as u8;
        let all = weights.push(spec_last_weight(weights) as u8);
        Ok(
            HuffmanTableView {
                decode: spec_cells(all, max_bits, max_bits as int, all.len() as int),
                weights,
                max_num_bits: max_bits,
                bits: spec_code_lengths(all, max_bits),
            },
        )
    }
}

/// What building a table from the description at the start of `source`
/// gives: the table and the number of bytes of the description.
#[verifier::opaque]
pub open spec fn spec_build_decoder(source: Seq<u8>) -> Result<
    (HuffmanTableView, u32),
    DecodeError,
> {
    match spec_read_weights(source) {
        Err(e) => Err(e),
        Ok((weights, bytes)) => match spec_table_from_weights(weights) {
            Err(e) => Err(e),
            Ok(table) => Ok((table, bytes)),
        },
    }
}

/// Whether `decode` can be indexed by any `max_bits` bits: it has
/// `2^max_bits` cells, each with a code of at least one bit and at most
/// `max_bits` bits.
pub open spec fn spec_table_valid(decode: Seq<Entry>, max_bits: u8) -> bool {
    &&& 0 < max_bits <= MAX_MAX_NUM_BITS
    &&& decode.len() == pow2(max_bits as nat)
    &&& forall|idx: int|
        0 <= idx < decode.len() ==> 0 < (#[trigger] decode[idx]).num_bits <= max_bits
}

/// The symbols that the lowest `bits` bits of `stream` spell, behind those
/// in `out`. The next `max_bits` bits, with zeros where the stream ends,
/// name a cell; the cell names the symbol and the number of bits that the
/// symbol's code takes. It is `BitstreamOverrun` if a code takes more bits
/// than are left.
pub open spec fn spec_decode_symbols(
    decode: Seq<Entry>,
    max_bits: u8,
    stream: Seq<u8>,
    bits: nat,
    out: Seq<u8>,
) -> Result<Seq<u8>, DecodeError>
    decreases bits,
{
    if bits == 0 {
        Ok(out)
    } else {
        let cell = decode[spec_peek(stream, bits, max_bits as nat) as int];
        if cell.num_bits == 0 || cell.num_bits > bits {
            Err(DecodeError::BitstreamOverrun)
        } else {
            spec_decode_symbols(
                decode,
                max_bits,
                stream,
                (bits - cell.num_bits) as nat,
                out.push(cell.symbol),
            )
        }
    }
}

/// The symbols that `stream` spells, behind those in `out`. A stream
/// without end mark is a `BitstreamOverrun` too.
pub open spec fn spec_decode_stream(
    decode: Seq<Entry>,
    max_bits: u8,
    stream: Seq<u8>,
    out: Seq<u8>,
) -> Result<Seq<u8>, DecodeError> {
    match spec_stream_bits(stream) {
        None => Err(DecodeError::BitstreamOverrun),
        Some(bits) => spec_decode_symbols(decode, max_bits, stream, bits, out),
    }
}

} // verus!
