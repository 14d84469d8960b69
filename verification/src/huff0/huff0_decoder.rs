//! Building a Huffman decoding table.

use vstd::prelude::*;
use vstd::arithmetic::power2::{pow2, lemma2_to64, lemma_pow2_pos, lemma_pow2_strictly_increases};
use crate::decoding::bit_reader_reverse::{spec_stream_bits, BitReaderReversed};
use crate::decoding::bits::bits_value;
use crate::errors::DecodeError;
use crate::fse::bit_length::{highest_bit_set, lemma_bit_length_bounds, lemma_bit_length_gt, lemma_bit_length_le, spec_bit_length};
use crate::fse::fse_decoder::{FSEDecoder, FSETable};
use crate::fse::probabilities::pow2_u32;
use crate::huff0::table_spec::{
    spec_build_decoder, spec_cells, spec_code_lengths, spec_compressed_weights,
    spec_decode_stream, spec_decode_symbols,
    spec_decode_weights, spec_direct_weights, spec_last_weight, spec_left_over, spec_max_bits,
    spec_read_weights, spec_table_from_weights, spec_table_valid, spec_weight_sum,
    spec_weight_value, spec_weights_ok, Entry, HuffmanTableView, MAX_MAX_NUM_BITS,
    MAX_STORED_WEIGHTS, MAX_WEIGHT_TABLE_LOG,
};

verus! {

/// A Huffman decoding table, with the weights it was built from.
pub struct HuffmanTable {
    /// The cells of the table; the next `max_num_bits` bits of a stream are
    /// an index into them.
    pub decode: Vec<Entry>,
    /// The stored weights, without the one of the last symbol.
    pub weights: Vec<u8>,
    pub max_num_bits: u8,
    /// The code length of every symbol, the last one included.
    pub bits: Vec<u8>,
}

impl View for HuffmanTable {
    type V = HuffmanTableView;

    open spec fn view(&self) -> HuffmanTableView {
        HuffmanTableView {
            decode: self.decode@,
            weights: self.weights@,
            max_num_bits: self.max_num_bits,
            bits: self.bits@,
        }
    }
}

/// The cells that the symbols below `upto` of weight `w` take.
pub open spec fn spec_class_sum(weights: Seq<u8>, w: int, upto: int) -> nat
    decreases upto,
{
    if upto <= 0 {
        0
    } else {
        spec_class_sum(weights, w, upto - 1) + if weights[upto - 1] == w {
            spec_weight_value(weights[upto - 1])
        } else {
            0
        }
    }
}

/// The cells that the symbols below `upto` of a weight from 1 to `w` take.
pub open spec fn spec_sum_to_weight(weights: Seq<u8>, w: int, upto: int) -> nat
    decreases upto,
{
    if upto <= 0 {
        0
    } else {
        spec_sum_to_weight(weights, w, upto - 1) + if 0 < weights[upto - 1] <= w {
            spec_weight_value(weights[upto - 1])
        } else {
            0
        }
    }
}

proof fn lemma_sum_to_weight_split(weights: Seq<u8>, w: int, upto: int)
    requires
        w >= 1,
    ensures
        spec_sum_to_weight(weights, w, upto) == spec_sum_to_weight(weights, w - 1, upto)
            + spec_class_sum(weights, w, upto),
    decreases upto,
{
    if upto > 0 {
        lemma_sum_to_weight_split(weights, w, upto - 1);
    }
}

proof fn lemma_sum_to_weight_zero(weights: Seq<u8>, w: int, upto: int)
    requires
        w <= 0,
    ensures
        spec_sum_to_weight(weights, w, upto) == 0,
    decreases upto,
{
    if upto > 0 {
        lemma_sum_to_weight_zero(weights, w, upto - 1);
    }
}

proof fn lemma_sum_to_weight_all(weights: Seq<u8>, w: int, upto: int)
    requires
        forall|t: int| 0 <= t < upto ==> weights[t] <= w,
    ensures
        spec_sum_to_weight(weights, w, upto) == spec_weight_sum(weights, upto),
    decreases upto,
{
    if upto > 0 {
        lemma_sum_to_weight_all(weights, w, upto - 1);
    }
}

/// The number of cells laid out is the number of cells that the symbols
/// laid out take.
proof fn lemma_cells_len(weights: Seq<u8>, max_bits: u8, w: int, s: int)
    requires
        0 <= s <= weights.len(),
    ensures
        w >= 1 ==> spec_cells(weights, max_bits, w, s).len() == spec_sum_to_weight(
            weights,
            w - 1,
            weights.len() as int,
        ) + spec_class_sum(weights, w, s),
        w <= 0 ==> spec_cells(weights, max_bits, w, s).len() == 0,
    decreases w, s,
{
    let n = weights.len() as int;
    if w <= 0 {
    } else if s <= 0 {
        lemma_cells_len(weights, max_bits, w - 1, n);
        if w - 1 >= 1 {
            lemma_sum_to_weight_split(weights, w - 1, n);
        } else {
            lemma_sum_to_weight_zero(weights, w - 1, n);
        }
    } else {
        lemma_cells_len(weights, max_bits, w, s - 1);
    }
}

proof fn lemma_weight_sum_agree(a: Seq<u8>, b: Seq<u8>, upto: int)
    requires
        forall|t: int| 0 <= t < upto ==> a[t] == b[t],
    ensures
        spec_weight_sum(a, upto) == spec_weight_sum(b, upto),
    decreases upto,
{
    if upto > 0 {
        lemma_weight_sum_agree(a, b, upto - 1);
    }
}

proof fn lemma_weight_le_sum(weights: Seq<u8>, s: int, upto: int)
    requires
        0 <= s < upto,
    ensures
        spec_weight_value(weights[s]) <= spec_weight_sum(weights, upto),
    decreases upto,
{
    if s < upto - 1 {
        lemma_weight_le_sum(weights, s, upto - 1);
    }
}

/// A table that is laid out for weights that fill `2^max_bits` cells has
/// that many cells.
proof fn lemma_table_len(weights: Seq<u8>)
    requires
        spec_weights_ok(weights),
    ensures
        ({
            let max_bits = spec_max_bits(weights) as u8;
            let all = weights.push(spec_last_weight(weights) as u8);
            &&& 0 < spec_max_bits(weights) <= MAX_MAX_NUM_BITS
            &&& 0 < spec_last_weight(weights) <= spec_max_bits(weights)
            &&& forall|t: int| 0 <= t < all.len() ==> all[t] <= max_bits
            &&& spec_cells(all, max_bits, max_bits as int, all.len() as int).len() == pow2(
                max_bits as nat,
            )
        }),
{
    let n = weights.len() as int;
    let sum = spec_weight_sum(weights, n);
    let max_bits = spec_max_bits(weights);
    let left_over = spec_left_over(weights);
    let last = spec_last_weight(weights);
    let all = weights.push(last as u8);
    lemma2_to64();
    lemma_bit_length_bounds(sum);
    lemma_bit_length_le(left_over as nat, max_bits);
    lemma_bit_length_bounds(left_over as nat);
    assert forall|t: int| 0 <= t < all.len() implies all[t] <= max_bits by {
        if t < n {
            lemma_weight_le_sum(weights, t, n);
            if weights[t] > 0 {
                lemma_bit_length_gt(sum, (weights[t] - 1) as nat);
            }
        }
    }
    lemma_weight_sum_agree(all, weights, n);
    assert(spec_weight_sum(all, n + 1) == sum + spec_weight_value(last as u8));
    lemma_cells_len(all, max_bits as u8, max_bits as int, n + 1);
    lemma_sum_to_weight_split(all, max_bits as int, n + 1);
    lemma_sum_to_weight_all(all, max_bits as int, n + 1);
}

/// Reads `count` weights stored as nibbles behind the header byte.
fn read_direct_weights(source: &[u8], count: usize) -> (weights: Vec<u8>)
    requires
        count <= 128,
        source@.len() >= 1 + (count + 1) / 2,
    ensures
        weights@ == spec_direct_weights(source@, count as nat),
{
    let mut weights: Vec<u8> = Vec::new();
    let mut idx: usize = 0;
    while idx < count
        invariant
            idx <= count <= 128,
            source@.len() >= 1 + (count + 1) / 2,
            weights@.len() == idx,
            forall|i: int| 0 <= i < idx ==> weights@[i] == spec_direct_weights(source@, count as nat)[i],
        decreases count - idx,
    {
        let byte: u8 = source[1 + idx / 2];
        let weight: u8 = if idx % 2 == 0 {
            byte >> 4
        } else {
            byte & 0xF
        };
        assert(byte >> 4 == byte / 16 && byte & 0xF == byte % 16) by (bit_vector);
        weights.push(weight);
        idx = idx + 1;
    }
    assert(weights@ =~= spec_direct_weights(source@, count as nat));
    weights
}

/// Decodes the weights of an FSE-compressed description, as
/// [`spec_compressed_weights`] describes.
fn decode_compressed_weights(region: &[u8]) -> (res: Result<Vec<u8>, DecodeError>)
    ensures
        match spec_compressed_weights(region@) {
            Ok(weights) => res matches Ok(got) && got@ == weights,
            Err(e) => res matches Err(got) && got == e,
        },
{
    let mut table = FSETable::new();
    let used: usize = match table.build_decoder(region, MAX_WEIGHT_TABLE_LOG) {
        Ok(used) => used,
        Err(_) => {
            return Err(DecodeError::HuffmanTableCorrupt);
        },
    };
    let stream: &[u8] = &region[used..region.len()];
    let mut br = match BitReaderReversed::new(stream) {
        Some(br) => br,
        None => {
            return Err(DecodeError::HuffmanTableCorrupt);
        },
    };
    let ghost bits = br.bits_remaining();
    let ghost log = table.accuracy_log as nat;
    let mut dec1 = FSEDecoder::new(&table);
    let mut dec2 = FSEDecoder::new(&table);
    match dec1.init_state(&mut br) {
        Ok(()) => {},
        Err(_) => {
            return Err(DecodeError::HuffmanTableCorrupt);
        },
    }
    match dec2.init_state(&mut br) {
        Ok(()) => {},
        Err(_) => {
            return Err(DecodeError::HuffmanTableCorrupt);
        },
    }
    let mut weights: Vec<u8> = Vec::new();
    let ghost whole = spec_compressed_weights(region@);
    assert(whole == spec_decode_weights(
        table@.decode,
        stream@,
        br.bits_remaining(),
        dec1.state(),
        dec2.state(),
        weights@,
    ));
    let mut done: bool = false;
    while !done
        invariant
            whole == spec_compressed_weights(region@),
            br.source() == stream@,
            dec1.table() == table@,
            dec2.table() == table@,
            weights@.len() <= MAX_STORED_WEIGHTS,
            !done ==> whole == spec_decode_weights(
                table@.decode,
                stream@,
                br.bits_remaining(),
                dec1.state(),
                dec2.state(),
                weights@,
            ),
            done ==> whole == Ok::<Seq<u8>, DecodeError>(weights@),
        decreases MAX_STORED_WEIGHTS + 1 - weights@.len() + (if done { 0nat } else { 1nat }),
    {
        if weights.len() + 2 > MAX_STORED_WEIGHTS {
            return Err(DecodeError::HuffmanTableCorrupt);
        }
        weights.push(dec1.decode_symbol());
        if !br.has_bits(dec1.num_bits() as usize) {
            // the stream is used up: the other state gives the last weight
            weights.push(dec2.decode_symbol());
            done = true;
        } else {
            match dec1.update_state(&mut br) {
                Ok(()) => {},
                Err(e) => {
                    return Err(e);
                },
            }
            assert(whole == spec_decode_weights(
                table@.decode,
                stream@,
                br.bits_remaining(),
                dec2.state(),
                dec1.state(),
                weights@,
            ));
            if weights.len() + 2 > MAX_STORED_WEIGHTS {
                return Err(DecodeError::HuffmanTableCorrupt);
            }
            weights.push(dec2.decode_symbol());
            if !br.has_bits(dec2.num_bits() as usize) {
                weights.push(dec1.decode_symbol());
                done = true;
            } else {
                match dec2.update_state(&mut br) {
                    Ok(()) => {},
                    Err(e) => {
                        return Err(e);
                    },
                }
            }
        }
    }
    Ok(weights)
}

/// Reads the weights that the description at the start of `source` stores,
/// as [`spec_read_weights`] describes.
pub fn read_weights(source: &[u8]) -> (res: Result<(Vec<u8>, u32), DecodeError>)
    ensures
        match spec_read_weights(source@) {
            Ok((weights, bytes)) => res matches Ok(got) && got.0@ == weights && got.1 == bytes,
            Err(e) => res matches Err(got) && got == e,
        },
        res matches Ok(got) ==> got.1 <= source@.len(),
{
    if source.len() == 0 {
        return Err(DecodeError::ShortInput);
    }
    let header: u8 = source[0];
    if header < 128 {
        let size: usize = header as usize;
        if source.len() < 1 + size {
            return Err(DecodeError::ShortInput);
        }
        let region: &[u8] = &source[1..1 + size];
        match decode_compressed_weights(region) {
            Ok(weights) => Ok((weights, 1 + header as u32)),
            Err(e) => Err(e),
        }
    } else {
        let count: usize = (header - 127) as usize;
        let bytes: usize = (count + 1) / 2;
        if source.len() < 1 + bytes {
            return Err(DecodeError::ShortInput);
        }
        let weights = read_direct_weights(source, count);
        Ok((weights, 1 + bytes as u32))
    }
}

/// Lays out the table of the stored weights, as
/// [`spec_table_from_weights`] describes: gives the cells, the code
/// lengths and the length of the longest code.
pub fn build_table_from_weights(weights: &[u8]) -> (res: Result<(Vec<Entry>, Vec<u8>, u8), DecodeError>)
    ensures
        match spec_table_from_weights(weights@) {
            Ok(table) => res matches Ok(got) && got.0@ == table.decode && got.1@ == table.bits
                && got.2 == table.max_num_bits,
            Err(e) => res matches Err(got) && got == e,
        },
        res matches Ok(got) ==> spec_table_valid(got.0@, got.2),
{
    let n: usize = weights.len();
    if n > MAX_STORED_WEIGHTS {
        return Err(DecodeError::HuffmanTableCorrupt);
    }
    proof {
        lemma2_to64();
    }
    let mut weight_sum: u32 = 0;
    let mut s: usize = 0;
    while s < n
        invariant
            s <= n <= MAX_STORED_WEIGHTS,
            n == weights@.len(),
            weight_sum == spec_weight_sum(weights@, s as int),
            weight_sum <= s * 1024,
            forall|t: int| 0 <= t < s ==> weights@[t] <= MAX_MAX_NUM_BITS,
        decreases n - s,
    {
        let w: u8 = weights[s];
        if w > MAX_MAX_NUM_BITS {
            return Err(DecodeError::HuffmanTableCorrupt);
        }
        if w > 0 {
            proof {
                lemma2_to64();
                if w < 11 {
                    lemma_pow2_strictly_increases((w - 1) as nat, 10);
                }
            }
            weight_sum = weight_sum + pow2_u32((w - 1) as u32);
        }
        s = s + 1;
    }
    if weight_sum == 0 {
        return Err(DecodeError::HuffmanTableCorrupt);
    }
    let max_bits: u32 = highest_bit_set(weight_sum);
    if max_bits > MAX_MAX_NUM_BITS as u32 {
        return Err(DecodeError::HuffmanTableCorrupt);
    }
    proof {
        lemma_bit_length_bounds(weight_sum as nat);
    }
    let left_over: u32 = pow2_u32(max_bits) - weight_sum;
    let last_weight: u32 = highest_bit_set(left_over);
    proof {
        lemma_bit_length_le(left_over as nat, max_bits as nat);
    }
    // what is left must be a power of two
    if pow2_u32(last_weight - 1) != left_over {
        return Err(DecodeError::HuffmanTableCorrupt);
    }
    assert(spec_weights_ok(weights@));
    let max_bits: u8 = max_bits as u8;
    let mut all: Vec<u8> = vstd::slice::slice_to_vec(weights);
    all.push(last_weight as u8);
    assert(all@ =~= weights@.push(spec_last_weight(weights@) as u8));
    proof {
        lemma_table_len(weights@);
    }
    let total: usize = n + 1;

    let mut bits: Vec<u8> = Vec::new();
    s = 0;
    while s < total
        invariant
            s <= total,
            total == all@.len(),
            0 < max_bits <= MAX_MAX_NUM_BITS,
            forall|t: int| 0 <= t < all@.len() ==> all@[t] <= max_bits,
            bits@.len() == s,
            forall|t: int| 0 <= t < s ==> bits@[t] == spec_code_lengths(all@, max_bits)[t],
        decreases total - s,
    {
        let w: u8 = all[s];
        bits.push(
            if w > 0 {
                max_bits + 1 - w
            } else {
                0
            },
        );
        s = s + 1;
    }
    assert(bits@ =~= spec_code_lengths(all@, max_bits));

    let mut decode: Vec<Entry> = Vec::new();
    let mut w: u8 = 1;
    assert(decode@ =~= spec_cells(all@, max_bits, 0, total as int));
    while w <= max_bits
        invariant
            1 <= w <= max_bits + 1,
            0 < max_bits <= MAX_MAX_NUM_BITS,
            total == all@.len(),
            total <= 256,
            decode@ == spec_cells(all@, max_bits, w - 1, total as int),
            forall|i: int| 0 <= i < decode@.len() ==> 0 < (#[trigger] decode@[i]).num_bits <= max_bits,
        decreases max_bits + 1 - w,
    {
        let num_bits: u8 = max_bits + 1 - w;
        proof {
            lemma2_to64();
            if w < 11 {
                lemma_pow2_strictly_increases((w - 1) as nat, 10);
            }
        }
        let cells: u32 = pow2_u32((w - 1) as u32);
        let mut s: usize = 0;
        assert(decode@ == spec_cells(all@, max_bits, w as int, 0));
        while s < total
            invariant
                s <= total,
                total == all@.len(),
                total <= 256,
                1 <= w <= max_bits,
                0 < max_bits <= MAX_MAX_NUM_BITS,
                num_bits == max_bits + 1 - w,
                cells == pow2((w - 1) as nat),
                decode@ == spec_cells(all@, max_bits, w as int, s as int),
                forall|i: int|
                    0 <= i < decode@.len() ==> 0 < (#[trigger] decode@[i]).num_bits <= max_bits,
            decreases total - s,
        {
            if all[s] == w {
                let entry = Entry { symbol: s as u8, num_bits };
                let ghost before = decode@;
                let mut placed: u32 = 0;
                while placed < cells
                    invariant
                        placed <= cells,
                        s < 256,
                        0 < num_bits <= max_bits,
                        entry == (Entry { symbol: s as u8, num_bits }),
                        decode@ == before + Seq::new(placed as nat, |i: int| entry),
                        forall|i: int|
                            0 <= i < before.len() ==> 0 < (#[trigger] before[i]).num_bits
                                <= max_bits,
                    decreases cells - placed,
                {
                    decode.push(entry);
                    placed = placed + 1;
                    assert(decode@ =~= before + Seq::new(placed as nat, |i: int| entry));
                }
                assert(Seq::new(cells as nat, |i: int| entry) =~= Seq::new(
                    pow2((w - 1) as nat),
                    |i: int| Entry { symbol: ((s + 1) - 1) as u8, num_bits: (max_bits + 1 - w) as u8 },
                ));
            }
            s = s + 1;
        }
        w = w + 1;
    }
    Ok((decode, bits, max_bits))
}

impl HuffmanTable {
    /// Whether the table can be indexed by any `max_num_bits` bits.
    pub open spec fn valid(&self) -> bool {
        spec_table_valid(self.decode@, self.max_num_bits)
    }

    /// Whether the table has been built properly or not at all.
    pub open spec fn built_or_empty(&self) -> bool {
        self.max_num_bits != 0 ==> self.valid()
    }

    /// A copy of the table.
    pub fn duplicate(&self) -> (res: HuffmanTable)
        ensures
            res@ == self@,
    {
        HuffmanTable {
            decode: vstd::slice::slice_to_vec(self.decode.as_slice()),
            weights: vstd::slice::slice_to_vec(self.weights.as_slice()),
            max_num_bits: self.max_num_bits,
            bits: vstd::slice::slice_to_vec(self.bits.as_slice()),
        }
    }

    /// A table without cells. It is not valid: it must be built first.
    pub fn new() -> (res: HuffmanTable)
        ensures
            res@.decode.len() == 0,
            res@.weights.len() == 0,
            res@.max_num_bits == 0,
            res@.bits.len() == 0,
    {
        HuffmanTable {
            decode: Vec::new(),
            weights: Vec::new(),
            max_num_bits: 0,
            bits: Vec::new(),
        }
    }

    /// Builds the table from the description at the start of `source` and
    /// returns the number of bytes that the description takes. On an error
    /// the table is left as it was.
    pub fn build_decoder(&mut self, source: &[u8]) -> (res: Result<u32, DecodeError>)
        ensures
            match spec_build_decoder(source@) {
                Ok((table, bytes)) => res == Ok::<u32, DecodeError>(bytes) && final(self)@
                    == table,
                Err(e) => res == Err::<u32, DecodeError>(e) && final(self)@ == old(self)@,
            },
            res matches Ok(bytes) ==> final(self).valid() && bytes <= source@.len(),
    {
        reveal(spec_build_decoder);
        let (weights, bytes_used) = match read_weights(source) {
            Ok(got) => got,
            Err(e) => {
                return Err(e);
            },
        };
        let (decode, bits, max_num_bits) = match build_table_from_weights(weights.as_slice()) {
            Ok(got) => got,
            Err(e) => {
                return Err(e);
            },
        };
        self.decode = decode;
        self.weights = weights;
        self.max_num_bits = max_num_bits;
        self.bits = bits;
        Ok(bytes_used)
    }
}

/// Decodes the symbols of one backward stream and appends them to
/// `target`, as [`spec_decode_stream`] describes. On an error `target` is
/// left as it was.
pub fn decode_stream(table: &HuffmanTable, stream: &[u8], target: &mut Vec<u8>) -> (res: Result<
    (),
    DecodeError,
>)
    requires
        table.valid(),
    ensures
        match spec_decode_stream(table@.decode, table@.max_num_bits, stream@, old(target)@) {
            Ok(out) => res is Ok && final(target)@ == out,
            Err(e) => res == Err::<(), DecodeError>(e) && final(target)@ == old(target)@,
        },
{
    let mut br = match BitReaderReversed::new(stream) {
        Some(br) => br,
        None => {
            return Err(DecodeError::BitstreamOverrun);
        },
    };
    let start_len: usize = target.len();
    let max_bits: usize = table.max_num_bits as usize;
    let ghost whole = spec_decode_stream(
        table@.decode,
        table@.max_num_bits,
        stream@,
        old(target)@,
    );
    while !br.is_empty()
        invariant
            table.valid(),
            max_bits == table.max_num_bits,
            br.source() == stream@,
            whole == spec_decode_stream(
                table@.decode,
                table@.max_num_bits,
                stream@,
                old(target)@,
            ),
            start_len == old(target)@.len(),
            target@.len() >= start_len,
            target@.subrange(0, start_len as int) == old(target)@,
            whole == spec_decode_symbols(
                table@.decode,
                table@.max_num_bits,
                stream@,
                br.bits_remaining(),
                target@,
            ),
        decreases br.bits_remaining(),
    {
        let window: u64 = br.peek_bits(max_bits);
        proof {
            lemma2_to64();
            if max_bits < 11 {
                lemma_pow2_strictly_increases(max_bits as nat, 11);
            }
        }
        let cell: Entry = table.decode[window as usize];
        if !br.has_bits(cell.num_bits as usize) {
            target.truncate(start_len);
            return Err(DecodeError::BitstreamOverrun);
        }
        br.skip_bits(cell.num_bits as usize);
        let ghost before = target@;
        target.push(cell.symbol);
        assert(target@.subrange(0, start_len as int) =~= before.subrange(0, start_len as int));
    }
    Ok(())
}

} // verus!
