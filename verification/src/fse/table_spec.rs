//! What the decoding table of a probability distribution is.
//!
//! A table of accuracy log `a` has `2^a` cells. A symbol of probability -1
//! takes one cell at the top of the table. The other symbols are spread over
//! the remaining cells by a walk that advances by a fixed step and skips the
//! cells at the top; a symbol of probability `p` takes `p` consecutive stops
//! of the walk. The cells of one symbol, in rising order, then share the
//! state space among them: each gets a base line and a number of bits.

use vstd::prelude::*;
use vstd::arithmetic::power2::pow2;
use crate::errors::DecodeError;
use crate::fse::bit_length::spec_bit_length;
use crate::fse::probabilities::{spec_prob_weight, MAX_SYMBOLS};

verus! {

/// One cell of a decoding table: the symbol that the state stands for, and
/// how the next state is found: `num_bits` bits from the stream, added to
/// `base_line`.
#[derive(Debug, Copy, Clone, PartialEq, Eq, Structural)]
pub struct Entry {
    pub base_line: u32,
    pub num_bits: u8,
    pub symbol: u8,
}

/// The cells that the first `upto` symbols take together.
pub open spec fn spec_prob_sum(probs: Seq<i32>, upto: int) -> nat
    decreases upto,
{
    if upto <= 0 {
        0
    } else {
        spec_prob_sum(probs, upto - 1) + spec_prob_weight(probs[upto - 1])
    }
}

/// The number of symbols of probability -1 among the first `upto`.
pub open spec fn spec_count_negative(probs: Seq<i32>, upto: int) -> nat
    decreases upto,
{
    if upto <= 0 {
        0
    } else {
        spec_count_negative(probs, upto - 1) + if probs[upto - 1] == -1 {
            1nat
        } else {
            0nat
        }
    }
}

/// Whether `probs` can be the probabilities of a table of accuracy log
/// `acc_log`: at most 256 of them, none below -1, taking exactly the
/// `2^acc_log` cells.
pub open spec fn spec_probs_fill(acc_log: u8, probs: Seq<i32>) -> bool {
    &&& acc_log <= 20
    &&& probs.len() <= MAX_SYMBOLS
    &&& forall|s: int| 0 <= s < probs.len() ==> probs[s] >= -1
    &&& spec_prob_sum(probs, probs.len() as int) == pow2(acc_log as nat)
}

/// The first cell of the top region that the symbols of probability -1 take.
pub open spec fn spec_limit(probs: Seq<i32>, size: nat) -> int {
    size - spec_count_negative(probs, probs.len() as int)
}

/// The symbols of the cells after the symbols of probability -1 among the
/// first `upto` have taken their cells, from the top down. All other cells
/// hold symbol 0 for now.
pub open spec fn spec_place_negative(probs: Seq<i32>, size: nat, upto: int) -> Seq<u8>
    decreases upto,
{
    if upto <= 0 {
        Seq::new(size, |i: int| 0u8)
    } else {
        let before = spec_place_negative(probs, size, upto - 1);
        if probs[upto - 1] == -1 {
            before.update(size - 1 - spec_count_negative(probs, upto - 1), (upto - 1) as u8)
        } else {
            before
        }
    }
}

/// The distance between two stops of the walk.
pub open spec fn spec_step(size: nat) -> nat {
    size / 2 + size / 8 + 3
}

/// The cell of stop `j` of the walk, which starts at cell 0.
pub open spec fn spec_cell(j: nat, size: nat) -> int {
    ((j * spec_step(size)) % size) as int
}

/// The first stop from `j` on whose cell lies below `limit`.
pub open spec fn spec_walk(j: nat, size: nat, limit: int) -> nat
    decreases (size - j % size) % (size as int),
{
    if size == 0 || limit <= 0 || spec_cell(j, size) < limit {
        j
    } else {
        proof {
            lemma_walk_measure(j, size, limit);
        }
        spec_walk(j + 1, size, limit)
    }
}

/// A stop whose cell is skipped is not a multiple of the table size, so the
/// stops left until the walk is back at cell 0 get fewer.
pub proof fn lemma_walk_measure(j: nat, size: nat, limit: int)
    requires
        size > 0,
        limit > 0,
        spec_cell(j, size) >= limit,
    ensures
        0 <= (size - (j + 1) % size) % (size as int) < (size - j % size) % (size as int),
{
    let n = size as int;
    let r = (j as int) % n;
    if r == 0 {
        // then j is a multiple of the size, and so is j * step
        vstd::arithmetic::div_mod::lemma_fundamental_div_mod(j as int, n);
        let q = (j as int) / n;
        assert(j * spec_step(size) == (q * spec_step(size)) * n) by (nonlinear_arith)
            requires
                j == n * q,
        ;
        vstd::arithmetic::div_mod::lemma_mod_multiples_basic(q * spec_step(size), n);
        assert(false);
    }
    vstd::arithmetic::div_mod::lemma_add_mod_noop(j as int, 1, n);
    if n > 1 {
        vstd::arithmetic::div_mod::lemma_small_mod(1, size);
    }
    if r + 1 < n {
        vstd::arithmetic::div_mod::lemma_small_mod((r + 1) as nat, size);
        vstd::arithmetic::div_mod::lemma_small_mod((n - r - 1) as nat, size);
    } else {
        vstd::arithmetic::div_mod::lemma_mod_self_0(n);
    }
    vstd::arithmetic::div_mod::lemma_small_mod((n - r) as nat, size);
}

/// The symbols of the cells and the stop that the walk has reached.
pub struct Spread {
    pub symbols: Seq<u8>,
    pub stop: nat,
}

/// The spread after `symbol` has taken `count` more stops.
pub open spec fn spec_spread_symbol(
    start: Spread,
    symbol: u8,
    count: nat,
    size: nat,
    limit: int,
) -> Spread
    decreases count,
{
    if count == 0 {
        start
    } else {
        let before = spec_spread_symbol(start, symbol, (count - 1) as nat, size, limit);
        Spread {
            symbols: before.symbols.update(spec_cell(before.stop, size), symbol),
            stop: spec_walk(before.stop + 1, size, limit),
        }
    }
}

/// The spread after the first `upto` symbols have taken their cells.
pub open spec fn spec_spread(probs: Seq<i32>, size: nat, upto: int) -> Spread
    decreases upto,
{
    if upto <= 0 {
        Spread { symbols: spec_place_negative(probs, size, probs.len() as int), stop: 0 }
    } else {
        let before = spec_spread(probs, size, upto - 1);
        if probs[upto - 1] > 0 {
            spec_spread_symbol(
                before,
                (upto - 1) as u8,
                probs[upto - 1] as nat,
                size,
                spec_limit(probs, size),
            )
        } else {
            before
        }
    }
}

/// The symbol of each cell of the table.
pub open spec fn spec_symbols(probs: Seq<i32>, size: nat) -> Seq<u8> {
    spec_spread(probs, size, probs.len() as int).symbols
}

/// The number of cells below `upto` that hold `symbol`.
pub open spec fn spec_occurrences(symbols: Seq<u8>, symbol: u8, upto: int) -> nat
    decreases upto,
{
    if upto <= 0 {
        0
    } else {
        spec_occurrences(symbols, symbol, upto - 1) + if symbols[upto - 1] == symbol {
            1nat
        } else {
            0nat
        }
    }
}

/// The base line and the number of bits of cell number `state_number`
/// (from 0) among the `prob` cells of one symbol.
///
/// The state space is cut into as many equal slices as the next power of
/// two from `prob` on says. The first cells of the symbol get two slices
/// each, at the upper end, so that the `prob` cells cover all slices; they
/// read one bit more than the others.
pub open spec fn spec_baseline_and_numbits(acc_log: nat, prob: nat, state_number: nat) -> (
    nat,
    nat,
)
    recommends
        0 < prob <= pow2(acc_log),
        state_number < prob,
{
    let slices_log = spec_bit_length((prob - 1) as nat);
    let slices = pow2(slices_log);
    let double_width = (slices - prob) as nat;
    let single_width = (prob - double_width) as nat;
    let width_log = (acc_log - slices_log) as nat;
    let width = pow2(width_log);
    if state_number < double_width {
        (single_width * width + state_number * width * 2, width_log + 1)
    } else {
        (((state_number - double_width) * width) as nat, width_log)
    }
}

/// Whether cell `idx` holds a symbol that has probability, and is not one
/// cell more than its symbol's probability allows.
pub open spec fn spec_cell_complete(probs: Seq<i32>, symbols: Seq<u8>, idx: int) -> bool {
    let symbol = symbols[idx];
    &&& symbol < probs.len()
    &&& probs[symbol as int] > 0
    &&& spec_occurrences(symbols, symbol, idx) < probs[symbol as int]
}

/// Cell `idx` of the table.
pub open spec fn spec_entry(acc_log: u8, probs: Seq<i32>, symbols: Seq<u8>, idx: int) -> Entry {
    let symbol = symbols[idx];
    if idx >= spec_limit(probs, pow2(acc_log as nat)) {
        Entry { symbol, base_line: 0, num_bits: acc_log }
    } else {
        let (base_line, num_bits) = spec_baseline_and_numbits(
            acc_log as nat,
            probs[symbol as int] as nat,
            spec_occurrences(symbols, symbol, idx),
        );
        Entry { symbol, base_line: base_line as u32, num_bits: num_bits as u8 }
    }
}

/// The decoding table of the probabilities `probs` at accuracy log
/// `acc_log`. It is `FSEProbsInvalid` if the probabilities do not take
/// exactly the cells of the table, or if the spread leaves a cell without a
/// symbol of its own.
pub open spec fn spec_decoding_table(acc_log: u8, probs: Seq<i32>) -> Result<
    Seq<Entry>,
    DecodeError,
> {
    let size = pow2(acc_log as nat);
    let symbols = spec_symbols(probs, size);
    if !spec_probs_fill(acc_log, probs) {
        Err(DecodeError::FSEProbsInvalid)
    } else if exists|idx: int|
        0 <= idx < spec_limit(probs, size) && !spec_cell_complete(probs, symbols, idx) {
        Err(DecodeError::FSEProbsInvalid)
    } else {
        Ok(Seq::new(size, |idx: int| spec_entry(acc_log, probs, symbols, idx)))
    }
}

/// Whether `decode` can be stepped through safely as a table of accuracy
/// log `acc_log`: it has `2^acc_log` cells, and from every cell every value
/// of the bits read leads to a cell of the table.
pub open spec fn spec_table_valid(decode: Seq<Entry>, acc_log: u8) -> bool {
    &&& acc_log <= 20
    &&& decode.len() == pow2(acc_log as nat)
    &&& forall|idx: int|
        0 <= idx < decode.len() ==> {
            &&& (#[trigger] decode[idx]).num_bits <= acc_log
            &&& decode[idx].base_line + pow2(decode[idx].num_bits as nat) <= decode.len()
        }
}

} // verus!
