//! Building an FSE decoding table.

use vstd::prelude::*;
use vstd::arithmetic::power2::{pow2, lemma2_to64, lemma_pow2_adds, lemma_pow2_pos, lemma_pow2_strictly_increases, lemma_pow2_unfold};
use crate::decoding::bit_reader_reverse::BitReaderReversed;
use crate::decoding::bits::{bits_value, lemma_bits_value_bound};
use crate::errors::DecodeError;
use crate::fse::bit_length::{highest_bit_set, lemma_bit_length_bounds, lemma_bit_length_le, spec_bit_length};
use crate::fse::probabilities::{pow2_u32, read_probabilities, spec_prob_weight, spec_read_probabilities, MAX_SYMBOLS};
use crate::fse::table_spec::{
    lemma_walk_measure, spec_baseline_and_numbits, spec_cell, spec_cell_complete,
    spec_count_negative, spec_decoding_table, spec_entry, spec_limit, spec_occurrences,
    spec_place_negative, spec_prob_sum, spec_probs_fill, spec_spread, spec_spread_symbol,
    spec_step, spec_symbols, spec_table_valid, spec_walk, Entry, Spread,
};

verus! {

/// An FSE decoding table, with the probabilities it was built from.
pub struct FSETable {
    /// The cells of the table; the state of a decoder is an index into them.
    pub decode: Vec<Entry>,
    pub accuracy_log: u8,
    pub symbol_probabilities: Vec<i32>,
}

/// What an [`FSETable`] holds, as plain values.
pub struct FSETableView {
    pub decode: Seq<Entry>,
    pub accuracy_log: u8,
    pub symbol_probabilities: Seq<i32>,
}

impl View for FSETable {
    type V = FSETableView;

    open spec fn view(&self) -> FSETableView {
        FSETableView {
            decode: self.decode@,
            accuracy_log: self.accuracy_log,
            symbol_probabilities: self.symbol_probabilities@,
        }
    }
}

/// What building a table from the description at the start of `source`
/// gives: the table and the number of bytes of the description.
#[verifier::opaque]
pub open spec fn spec_build_decoder(source: Seq<u8>, max_log: u8) -> Result<
    (FSETableView, usize),
    DecodeError,
> {
    match spec_read_probabilities(source, max_log) {
        Err(e) => Err(e),
        Ok((accuracy_log, probs, bytes)) => match spec_decoding_table(accuracy_log, probs) {
            Err(e) => Err(e),
            Ok(decode) => Ok(
                (FSETableView { decode, accuracy_log, symbol_probabilities: probs }, bytes),
            ),
        },
    }
}

/// What building a table from given probabilities gives. An accuracy log
/// of 0 is refused.
pub open spec fn spec_build_from_probabilities(acc_log: u8, probs: Seq<i32>) -> Result<
    FSETableView,
    DecodeError,
> {
    if acc_log == 0 {
        Err(DecodeError::FSEProbsInvalid)
    } else {
        match spec_decoding_table(acc_log, probs) {
            Err(e) => Err(e),
            Ok(decode) => Ok(
                FSETableView { decode, accuracy_log: acc_log, symbol_probabilities: probs },
            ),
        }
    }
}

/// The cells of a symbol cover slices of the state space: the base line of
/// a cell and the values of its bits stay within the table.
pub proof fn lemma_baseline_in_table(acc_log: nat, prob: nat, state_number: nat)
    requires
        0 < prob <= pow2(acc_log),
        state_number < prob,
    ensures
        spec_baseline_and_numbits(acc_log, prob, state_number).1 <= acc_log,
        spec_baseline_and_numbits(acc_log, prob, state_number).0 + pow2(
            spec_baseline_and_numbits(acc_log, prob, state_number).1,
        ) <= pow2(acc_log),
        spec_bit_length((prob - 1) as nat) <= acc_log,
        prob <= pow2(spec_bit_length((prob - 1) as nat)) < 2 * prob,
{
    let slices_log = spec_bit_length((prob - 1) as nat);
    let slices = pow2(slices_log);
    lemma2_to64();
    lemma_bit_length_bounds((prob - 1) as nat);
    lemma_bit_length_le((prob - 1) as nat, acc_log);
    if slices_log > 0 {
        lemma_pow2_unfold(slices_log);
    }
    let double_width = (slices - prob) as nat;
    let single_width = (prob - double_width) as nat;
    let width_log = (acc_log - slices_log) as nat;
    let width = pow2(width_log);
    lemma_pow2_adds(slices_log, width_log);
    lemma_pow2_pos(width_log);
    assert(slices * width == pow2(acc_log));
    if state_number < double_width {
        lemma_pow2_unfold(width_log + 1);
        assert(single_width * width + state_number * width * 2 + 2 * width <= slices * width)
            by (nonlinear_arith)
            requires
                state_number + 1 <= double_width,
                single_width + 2 * double_width == slices,
                width > 0,
        ;
    } else {
        assert((state_number - double_width) * width + width <= slices * width)
            by (nonlinear_arith)
            requires
                state_number - double_width + 1 <= single_width,
                single_width <= slices,
                state_number >= double_width,
                width > 0,
        ;
    }
}

/// The base line and the number of bits of cell number `state_number`
/// among the `prob` cells of one symbol.
pub fn calc_baseline_and_numbits(acc_log: u8, prob: u32, state_number: u32) -> (res: (u32, u8))
    requires
        acc_log <= 20,
        0 < prob <= pow2(acc_log as nat),
        state_number < prob,
    ensures
        res.0 == spec_baseline_and_numbits(acc_log as nat, prob as nat, state_number as nat).0,
        res.1 == spec_baseline_and_numbits(acc_log as nat, prob as nat, state_number as nat).1,
        res.1 <= acc_log,
        res.0 + pow2(res.1 as nat) <= pow2(acc_log as nat),
{
    proof {
        lemma2_to64();
        lemma_baseline_in_table(acc_log as nat, prob as nat, state_number as nat);
        lemma_pow2_strictly_increases(acc_log as nat, 21);
    }
    let slices_log: u32 = highest_bit_set(prob - 1);
    let slices: u32 = pow2_u32(slices_log);
    let double_width: u32 = slices - prob;
    let single_width: u32 = prob - double_width;
    let width_log: u32 = acc_log as u32 - slices_log;
    let width: u32 = pow2_u32(width_log);
    proof {
        lemma_pow2_adds(slices_log as nat, width_log as nat);
        lemma_pow2_pos(width_log as nat);
        assert(single_width * width <= slices * width) by (nonlinear_arith)
            requires
                single_width <= slices,
                width >= 0,
        ;
    }
    if state_number < double_width {
        proof {
            lemma_pow2_unfold((width_log + 1) as nat);
            assert(state_number * width * 2 <= slices * width && state_number * width
                <= slices * width) by (nonlinear_arith)
                requires
                    2 * state_number <= slices,
                    width >= 0,
                    state_number >= 0,
            ;
        }
        (single_width * width + state_number * width * 2, (width_log + 1) as u8)
    } else {
        proof {
            assert((state_number - double_width) * width <= slices * width) by (nonlinear_arith)
                requires
                    state_number - double_width <= slices,
                    state_number >= double_width,
                    width >= 0,
            ;
        }
        ((state_number - double_width) * width, width_log as u8)
    }
}

/// The symbols of probability -1 take no more cells than all symbols do.
proof fn lemma_negative_le_sum(probs: Seq<i32>, upto: int)
    ensures
        spec_count_negative(probs, upto) <= spec_prob_sum(probs, upto),
    decreases upto,
{
    if upto > 0 {
        lemma_negative_le_sum(probs, upto - 1);
    }
}

/// Counting further symbols does not lower the count.
proof fn lemma_count_negative_monotonic(probs: Seq<i32>, a: int, b: int)
    requires
        a <= b,
    ensures
        spec_count_negative(probs, a) <= spec_count_negative(probs, b),
    decreases b - a,
{
    if a < b {
        lemma_count_negative_monotonic(probs, a, b - 1);
    }
}

/// The walk's next stop is one step further, around the table.
proof fn lemma_cell_step(stop: nat, size: nat)
    requires
        size > 0,
    ensures
        spec_cell(stop + 1, size) == (spec_cell(stop, size) + spec_step(size)) % (size as int),
        0 <= spec_cell(stop, size) < size,
{
    let step = spec_step(size);
    assert((stop + 1) * step == stop * step + step) by (nonlinear_arith);
    vstd::arithmetic::div_mod::lemma_add_mod_noop((stop * step) as int, step as int, size as int);
    vstd::arithmetic::div_mod::lemma_mod_twice((stop * step) as int, size as int);
    assert(stop * step >= 0) by (nonlinear_arith)
        requires
            stop >= 0,
            step >= 0,
    ;
    vstd::arithmetic::div_mod::lemma_mod_bound((stop * step) as int, size as int);
    // step % size is what the machine adds when step >= size; here it adds step itself
    vstd::arithmetic::div_mod::lemma_add_mod_noop(
        spec_cell(stop, size),
        step as int,
        size as int,
    );
}

/// Checks that `probs` take exactly the cells of a table of accuracy log
/// `acc_log`, and counts the symbols of probability -1.
fn count_negative(acc_log: u8, probs: &[i32]) -> (res: Option<u32>)
    ensures
        res is Some <==> spec_probs_fill(acc_log, probs@),
        res matches Some(negatives) ==> negatives == spec_count_negative(
            probs@,
            probs@.len() as int,
        ) && negatives <= pow2(acc_log as nat),
{
    let n: usize = probs.len();
    if acc_log > 20 || n > MAX_SYMBOLS {
        return None;
    }
    let size: u32 = pow2_u32(acc_log as u32);
    let mut sum: u64 = 0;
    let mut negatives: u32 = 0;
    let mut s: usize = 0;
    while s < n
        invariant
            s <= n <= MAX_SYMBOLS,
            n == probs@.len(),
            sum == spec_prob_sum(probs@, s as int),
            sum <= s * 0x7fff_ffff,
            negatives == spec_count_negative(probs@, s as int),
            negatives <= s,
            forall|t: int| 0 <= t < s ==> probs@[t] >= -1,
        decreases n - s,
    {
        let p: i32 = probs[s];
        if p < -1 {
            return None;
        }
        if p == -1 {
            sum = sum + 1;
            negatives = negatives + 1;
        } else if p > 0 {
            sum = sum + p as u64;
        }
        s = s + 1;
    }
    if sum != size as u64 {
        return None;
    }
    proof {
        lemma_negative_le_sum(probs@, n as int);
    }
    Some(negatives)
}

/// Gives every cell of the table its symbol.
fn spread_symbols(acc_log: u8, probs: &[i32], negatives: u32) -> (symbols: Vec<u8>)
    requires
        spec_probs_fill(acc_log, probs@),
        negatives == spec_count_negative(probs@, probs@.len() as int),
        negatives <= pow2(acc_log as nat),
    ensures
        symbols@ == spec_symbols(probs@, pow2(acc_log as nat)),
        symbols@.len() == pow2(acc_log as nat),
{
    let n: usize = probs.len();
    let size: u32 = pow2_u32(acc_log as u32);
    let limit: u32 = size - negatives;
    proof {
        lemma2_to64();
        lemma_pow2_strictly_increases(acc_log as nat, 21);
    }
    let mut symbols: Vec<u8> = Vec::new();
    let mut fill: u32 = 0;
    while fill < size
        invariant
            fill <= size,
            symbols@.len() == fill,
            forall|i: int| 0 <= i < fill ==> symbols@[i] == 0u8,
        decreases size - fill,
    {
        symbols.push(0u8);
        fill = fill + 1;
    }
    assert(symbols@ =~= spec_place_negative(probs@, size as nat, 0));

    // the symbols of probability -1 go to the top of the table
    let mut negative_idx: u32 = size;
    let mut s: usize = 0;
    while s < n
        invariant
            s <= n <= MAX_SYMBOLS,
            n == probs@.len(),
            symbols@ == spec_place_negative(probs@, size as nat, s as int),
            symbols@.len() == size,
            negative_idx == size - spec_count_negative(probs@, s as int),
            negatives == spec_count_negative(probs@, n as int),
            negatives <= size,
        decreases n - s,
    {
        if probs[s] == -1 {
            proof {
                lemma_count_negative_monotonic(probs@, s + 1, n as int);
            }
            negative_idx = negative_idx - 1;
            symbols[negative_idx as usize] = s as u8;
        }
        s = s + 1;
    }

    // the other symbols are spread over the cells below
    let step: u32 = size / 2 + size / 8 + 3;
    let mut position: u32 = 0;
    let ghost mut stop: nat = 0;
    proof {
        lemma_cell_step(0, size as nat);
        let first = 0nat * spec_step(size as nat);
        assert(first == 0) by (nonlinear_arith)
            requires
                first == 0nat * spec_step(size as nat),
        ;
        vstd::arithmetic::div_mod::lemma_small_mod(0, size as nat);
        assert(spec_cell(0, size as nat) == 0);
    }
    s = 0;
    while s < n
        invariant
            s <= n <= MAX_SYMBOLS,
            n == probs@.len(),
            0 < size <= 0x10_0000,
            step == spec_step(size as nat),
            limit == spec_limit(probs@, size as nat),
            symbols@.len() == size,
            position == spec_cell(stop, size as nat),
            (Spread { symbols: symbols@, stop }) == spec_spread(probs@, size as nat, s as int),
        decreases n - s,
    {
        let p: i32 = probs[s];
        if p > 0 {
            let ghost start = Spread { symbols: symbols@, stop };
            let mut placed: u32 = 0;
            while placed < p as u32
                invariant
                    placed <= p,
                    s < n <= MAX_SYMBOLS,
                    0 < size <= 0x10_0000,
                    step == spec_step(size as nat),
                    symbols@.len() == size,
                    position == spec_cell(stop, size as nat),
                    (Spread { symbols: symbols@, stop }) == spec_spread_symbol(
                        start,
                        s as u8,
                        placed as nat,
                        size as nat,
                        limit as int,
                    ),
                decreases p - placed,
            {
                proof {
                    lemma_cell_step(stop, size as nat);
                }
                symbols[position as usize] = s as u8;
                position = (position + step) % size;
                let ghost reached = stop + 1;
                proof {
                    stop = stop + 1;
                }
                // the cells at the top are taken already
                while limit > 0 && position >= limit
                    invariant
                        0 < size <= 0x10_0000,
                        step == spec_step(size as nat),
                        position == spec_cell(stop, size as nat),
                        spec_walk(stop, size as nat, limit as int) == spec_walk(
                            reached,
                            size as nat,
                            limit as int,
                        ),
                    decreases (size - stop % (size as nat)) % (size as int),
                {
                    proof {
                        lemma_walk_measure(stop, size as nat, limit as int);
                        lemma_cell_step(stop, size as nat);
                    }
                    position = (position + step) % size;
                    proof {
                        stop = stop + 1;
                    }
                }
                placed = placed + 1;
            }
        }
        s = s + 1;
    }
    symbols
}

/// Gives every cell its base line and number of bits. Fails if a cell
/// below `limit` is not complete.
fn fill_entries(acc_log: u8, probs: &[i32], symbols: &Vec<u8>, limit: u32) -> (res: Option<
    Vec<Entry>,
>)
    requires
        spec_probs_fill(acc_log, probs@),
        symbols@.len() == pow2(acc_log as nat),
        limit == spec_limit(probs@, pow2(acc_log as nat)),
    ensures
        match res {
            Some(decode) => {
                &&& forall|idx: int| 0 <= idx < limit ==> spec_cell_complete(probs@, symbols@, idx)
                &&& decode@ == Seq::new(
                    pow2(acc_log as nat),
                    |idx: int| spec_entry(acc_log, probs@, symbols@, idx),
                )
                &&& spec_table_valid(decode@, acc_log)
            },
            None => exists|idx: int| 0 <= idx < limit && !spec_cell_complete(probs@, symbols@, idx),
        },
{
    let n: usize = probs.len();
    let size: u32 = pow2_u32(acc_log as u32);
    proof {
        lemma2_to64();
        lemma_pow2_strictly_increases(acc_log as nat, 21);
    }
    let mut counters: Vec<u32> = Vec::new();
    let mut fill: usize = 0;
    while fill < MAX_SYMBOLS
        invariant
            fill <= MAX_SYMBOLS,
            counters@.len() == fill,
            forall|t: int| 0 <= t < fill ==> counters@[t] == 0u32,
        decreases MAX_SYMBOLS - fill,
    {
        counters.push(0u32);
        fill = fill + 1;
    }
    let mut decode: Vec<Entry> = Vec::new();
    let mut idx: u32 = 0;
    while idx < size
        invariant
            idx <= size,
            size == pow2(acc_log as nat),
            0 < size <= 0x10_0000,
            acc_log <= 20,
            n == probs@.len(),
            symbols@.len() == size,
            spec_probs_fill(acc_log, probs@),
            limit == spec_limit(probs@, pow2(acc_log as nat)),
            counters@.len() == MAX_SYMBOLS,
            forall|t: int|
                0 <= t < MAX_SYMBOLS ==> counters@[t] == spec_occurrences(
                    symbols@,
                    t as u8,
                    idx as int,
                ),
            decode@.len() == idx,
            forall|i: int|
                0 <= i < idx ==> #[trigger] decode@[i] == spec_entry(acc_log, probs@, symbols@, i),
            forall|i: int| 0 <= i < idx && i < limit ==> spec_cell_complete(probs@, symbols@, i),
            forall|i: int|
                0 <= i < idx ==> {
                    &&& (#[trigger] decode@[i]).num_bits <= acc_log
                    &&& decode@[i].base_line + pow2(decode@[i].num_bits as nat) <= size
                },
        decreases size - idx,
    {
        let symbol: u8 = symbols[idx as usize];
        let ghost seen = spec_occurrences(symbols@, symbol, idx as int);
        proof {
            lemma_occurrences_bound(symbols@, symbol, idx as int);
        }
        if idx >= limit {
            decode.push(Entry { symbol, base_line: 0, num_bits: acc_log });
        } else {
            if symbol as usize >= n {
                assert(!spec_cell_complete(probs@, symbols@, idx as int));
                return None;
            }
            let p: i32 = probs[symbol as usize];
            let count: u32 = counters[symbol as usize];
            assert(count == seen);
            if p <= 0 || count >= p as u32 {
                assert(!spec_cell_complete(probs@, symbols@, idx as int));
                return None;
            }
            proof {
                lemma_prob_le_sum(probs@, symbol as int, n as int);
            }
            let (base_line, num_bits) = calc_baseline_and_numbits(acc_log, p as u32, count);
            decode.push(Entry { symbol, base_line, num_bits });
        }
        let count: u32 = counters[symbol as usize];
        counters[symbol as usize] = count + 1;
        idx = idx + 1;
    }
    assert(decode@ =~= Seq::new(
        pow2(acc_log as nat),
        |idx: int| spec_entry(acc_log, probs@, symbols@, idx),
    ));
    Some(decode)
}

/// No symbol occurs more often below a cell than there are cells below it.
proof fn lemma_occurrences_bound(symbols: Seq<u8>, symbol: u8, upto: int)
    ensures
        spec_occurrences(symbols, symbol, upto) <= if upto < 0 {
            0
        } else {
            upto
        },
    decreases upto,
{
    if upto > 0 {
        lemma_occurrences_bound(symbols, symbol, upto - 1);
    }
}

/// One symbol takes no more cells than all symbols do.
proof fn lemma_prob_le_sum(probs: Seq<i32>, s: int, upto: int)
    requires
        0 <= s < upto,
    ensures
        spec_prob_weight(probs[s]) <= spec_prob_sum(probs, upto),
    decreases upto,
{
    if s < upto - 1 {
        lemma_prob_le_sum(probs, s, upto - 1);
    }
}

/// Builds the decoding table of `probs` at accuracy log `acc_log`, as
/// [`spec_decoding_table`] describes. A table that comes out of this can be
/// stepped through safely.
pub fn build_decoding_table(acc_log: u8, probs: &[i32]) -> (res: Result<Vec<Entry>, DecodeError>)
    ensures
        match spec_decoding_table(acc_log, probs@) {
            Ok(table) => res matches Ok(decode) && decode@ == table,
            Err(e) => res matches Err(got) && got == e,
        },
        res matches Ok(decode) ==> spec_table_valid(decode@, acc_log),
{
    let negatives: u32 = match count_negative(acc_log, probs) {
        Some(negatives) => negatives,
        None => {
            return Err(DecodeError::FSEProbsInvalid);
        },
    };
    let size: u32 = pow2_u32(acc_log as u32);
    let symbols = spread_symbols(acc_log, probs, negatives);
    match fill_entries(acc_log, probs, &symbols, size - negatives) {
        Some(decode) => Ok(decode),
        None => Err(DecodeError::FSEProbsInvalid),
    }
}

impl FSETable {
    /// Whether the table can be stepped through safely.
    pub open spec fn valid(&self) -> bool {
        spec_table_valid(self.decode@, self.accuracy_log)
    }

    /// Whether the table has been built properly or not at all.
    pub open spec fn built_or_empty(&self) -> bool {
        self.decode@.len() != 0 ==> self.valid()
    }

    /// The table that decodes nothing but `symbol`: one cell, which reads
    /// no bits.
    pub open spec fn spec_rle(symbol: u8) -> FSETableView {
        FSETableView {
            decode: seq![Entry { symbol, num_bits: 0, base_line: 0 }],
            accuracy_log: 0,
            symbol_probabilities: Seq::empty(),
        }
    }

    /// Makes the table the one that decodes nothing but `symbol`.
    pub fn build_rle(&mut self, symbol: u8)
        ensures
            final(self)@ == Self::spec_rle(symbol),
            final(self).valid(),
    {
        let mut decode: Vec<Entry> = Vec::new();
        decode.push(Entry { symbol, num_bits: 0, base_line: 0 });
        assert(decode@ =~= seq![Entry { symbol, num_bits: 0, base_line: 0 }]);
        proof {
            lemma2_to64();
        }
        self.decode = decode;
        self.accuracy_log = 0;
        self.symbol_probabilities = Vec::new();
    }

    /// A copy of the table.
    pub fn duplicate(&self) -> (res: FSETable)
        ensures
            res@ == self@,
    {
        FSETable {
            decode: vstd::slice::slice_to_vec(self.decode.as_slice()),
            accuracy_log: self.accuracy_log,
            symbol_probabilities: vstd::slice::slice_to_vec(self.symbol_probabilities.as_slice()),
        }
    }

    /// A table without cells. It is not valid: it must be built first.
    pub fn new() -> (res: FSETable)
        ensures
            res@.decode.len() == 0,
            res@.accuracy_log == 0,
            res@.symbol_probabilities.len() == 0,
            res.built_or_empty(),
    {
        FSETable { decode: Vec::new(), accuracy_log: 0, symbol_probabilities: Vec::new() }
    }

    /// Builds the table from the description at the start of `source` and
    /// returns the number of bytes that the description takes. On an error
    /// the table is left as it was.
    pub fn build_decoder(&mut self, source: &[u8], max_log: u8) -> (res: Result<
        usize,
        DecodeError,
    >)
        ensures
            match spec_build_decoder(source@, max_log) {
                Ok((table, bytes)) => res == Ok::<usize, DecodeError>(bytes) && final(self)@
                    == table,
                Err(e) => res == Err::<usize, DecodeError>(e) && final(self)@ == old(self)@,
            },
            res matches Ok(bytes) ==> final(self).valid() && bytes <= source@.len()
                && final(self).accuracy_log <= max_log,
    {
        reveal(spec_build_decoder);
        let (acc_log, probs, bytes_read) = match read_probabilities(source, max_log) {
            Ok(got) => got,
            Err(e) => {
                return Err(e);
            },
        };
        let decode = match build_decoding_table(acc_log, probs.as_slice()) {
            Ok(decode) => decode,
            Err(e) => {
                return Err(e);
            },
        };
        self.decode = decode;
        self.accuracy_log = acc_log;
        self.symbol_probabilities = probs;
        Ok(bytes_read)
    }

    /// Builds the table from given probabilities. On an error the table is
    /// left as it was.
    pub fn build_from_probabilities(&mut self, acc_log: u8, probs: &[i32]) -> (res: Result<
        (),
        DecodeError,
    >)
        ensures
            match spec_build_from_probabilities(acc_log, probs@) {
                Ok(table) => res is Ok && final(self)@ == table,
                Err(e) => res == Err::<(), DecodeError>(e) && final(self)@ == old(self)@,
            },
            res is Ok ==> final(self).valid(),
    {
        if acc_log == 0 {
            return Err(DecodeError::FSEProbsInvalid);
        }
        let decode = match build_decoding_table(acc_log, probs) {
            Ok(decode) => decode,
            Err(e) => {
                return Err(e);
            },
        };
        self.decode = decode;
        self.accuracy_log = acc_log;
        self.symbol_probabilities = vstd::slice::slice_to_vec(probs);
        Ok(())
    }
}

/// A walk through a decoding table: the state is the index of a cell, the
/// cell names the symbol, and bits from a backward stream lead to the next
/// state.
pub struct FSEDecoder<'t> {
    state: usize,
    table: &'t FSETable,
}

impl<'t> FSEDecoder<'t> {
    #[verifier::type_invariant]
    spec fn well_formed(&self) -> bool {
        &&& self.table.valid()
        &&& self.state < self.table.decode@.len()
    }

    /// The index of the current cell.
    pub closed spec fn state(&self) -> nat {
        self.state as nat
    }

    /// The table that is walked through.
    pub closed spec fn table(&self) -> FSETableView {
        self.table@
    }

    /// The current cell.
    pub open spec fn entry(&self) -> Entry {
        self.table().decode[self.state() as int]
    }

    /// A decoder at the first cell of `table`.
    pub fn new(table: &'t FSETable) -> (res: FSEDecoder<'t>)
        requires
            table.valid(),
        ensures
            res.table() == table@,
            res.state() == 0,
    {
        proof {
            lemma_pow2_pos(table.accuracy_log as nat);
        }
        FSEDecoder { state: 0, table }
    }

    /// The symbol that the current state stands for.
    pub fn decode_symbol(&self) -> (res: u8)
        ensures
            res == self.entry().symbol,
    {
        proof {
            use_type_invariant(self);
        }
        self.table.decode[self.state].symbol
    }

    /// The number of bits that the step from the current state reads.
    pub fn num_bits(&self) -> (res: u8)
        ensures
            res == self.entry().num_bits,
            res <= 20,
    {
        proof {
            use_type_invariant(self);
        }
        self.table.decode[self.state].num_bits
    }

    /// Reads the first state: as many bits as the accuracy log says. Fails
    /// with `BitstreamOverrun`, changing nothing, if the stream has fewer.
    pub fn init_state(&mut self, bits: &mut BitReaderReversed<'_>) -> (res: Result<
        (),
        DecodeError,
    >)
        ensures
            final(self).table() == old(self).table(),
            final(bits).source() == old(bits).source(),
            match res {
                Ok(()) => {
                    let n = old(self).table().accuracy_log as nat;
                    &&& n <= old(bits).bits_remaining()
                    &&& final(bits).bits_remaining() == old(bits).bits_remaining() - n
                    &&& final(self).state() == bits_value(
                        old(bits).source(),
                        old(bits).bits_remaining() - n,
                        n,
                    )
                },
                Err(e) => {
                    &&& e == DecodeError::BitstreamOverrun
                    &&& old(self).table().accuracy_log > old(bits).bits_remaining()
                    &&& final(self).state() == old(self).state()
                    &&& final(bits).bits_remaining() == old(bits).bits_remaining()
                },
            },
    {
        proof {
            use_type_invariant(&*self);
        }
        let table = self.table;
        let n: usize = table.accuracy_log as usize;
        let ghost start = bits.bits_remaining() - n;
        let value: u64 = match bits.get_bits(n) {
            Ok(value) => value,
            Err(e) => {
                return Err(e);
            },
        };
        proof {
            lemma_bits_value_bound(bits.source(), start, n as nat);
            lemma2_to64();
            lemma_pow2_strictly_increases(n as nat, 21);
        }
        *self = FSEDecoder { state: value as usize, table };
        Ok(())
    }

    /// Steps to the next state: the base line of the current cell plus the
    /// number that its bits spell. Fails with `BitstreamOverrun`, changing
    /// nothing, if the stream has fewer bits than the cell asks for.
    pub fn update_state(&mut self, bits: &mut BitReaderReversed<'_>) -> (res: Result<
        (),
        DecodeError,
    >)
        ensures
            final(self).table() == old(self).table(),
            final(bits).source() == old(bits).source(),
            match res {
                Ok(()) => {
                    let n = old(self).entry().num_bits as nat;
                    &&& n <= old(bits).bits_remaining()
                    &&& final(bits).bits_remaining() == old(bits).bits_remaining() - n
                    &&& final(self).state() == old(self).entry().base_line + bits_value(
                        old(bits).source(),
                        old(bits).bits_remaining() - n,
                        n,
                    )
                },
                Err(e) => {
                    &&& e == DecodeError::BitstreamOverrun
                    &&& old(self).entry().num_bits > old(bits).bits_remaining()
                    &&& final(self).state() == old(self).state()
                    &&& final(bits).bits_remaining() == old(bits).bits_remaining()
                },
            },
    {
        proof {
            use_type_invariant(&*self);
        }
        let table = self.table;
        let entry: Entry = table.decode[self.state];
        let n: usize = entry.num_bits as usize;
        let ghost start = bits.bits_remaining() - n;
        let add: u64 = match bits.get_bits(n) {
            Ok(value) => value,
            Err(e) => {
                return Err(e);
            },
        };
        proof {
            lemma_bits_value_bound(bits.source(), start, n as nat);
            lemma2_to64();
            lemma_pow2_strictly_increases(table.accuracy_log as nat, 21);
        }
        *self = FSEDecoder { state: entry.base_line as usize + add as usize, table };
        Ok(())
    }
}

} // verus!
