//! The backward bit reader of the entropy-coded streams.
//!
//! Such a stream is written from its first byte on and read from its end:
//! its last byte holds, above the last bits written, a single set bit that
//! marks where the stream ends. Reading starts just below that mark and
//! goes down to bit 0 of byte 0.

use vstd::prelude::*;
use vstd::arithmetic::power2::{pow2, lemma2_to64, lemma_pow2_adds, lemma_pow2_strictly_increases};
use vstd::bits::lemma_u64_shl_is_mul;
use crate::decoding::bits::{bits_value, extract_bits, lemma_bits_value_bound};
use crate::errors::DecodeError;
use crate::fse::bit_length::{highest_bit_set, lemma_bit_length_le, spec_bit_length};

verus! {

/// A cursor into the bits of a byte slice that moves towards its start.
pub struct BitReaderReversed<'s> {
    byte_idx: usize,
    bit_off: u8,
    source: &'s [u8],
}

/// The number of bits below the end mark of `source`, or `None` if the
/// stream has no end mark: if it is empty or its last byte is zero.
pub open spec fn spec_stream_bits(source: Seq<u8>) -> Option<nat> {
    if source.len() == 0 || source.last() == 0 {
        None
    } else {
        Some((8 * (source.len() - 1) + spec_bit_length(source.last() as nat) - 1) as nat)
    }
}

/// The `n` bits below bit `bits` of `stream` as a number, the highest bit
/// first; where the stream has fewer than `n` bits left, zeros stand for
/// the missing low bits.
pub open spec fn spec_peek(stream: Seq<u8>, bits: nat, n: nat) -> nat {
    if bits >= n {
        bits_value(stream, bits - n, n)
    } else {
        bits_value(stream, 0, bits) * pow2((n - bits) as nat)
    }
}

/// A window of `n` bits is a number below `2^n`.
pub proof fn lemma_peek_bound(stream: Seq<u8>, bits: nat, n: nat)
    ensures
        spec_peek(stream, bits, n) < pow2(n),
{
    if bits >= n {
        lemma_bits_value_bound(stream, bits - n, n);
    } else {
        lemma_bits_value_bound(stream, 0, bits);
        lemma_pow2_adds(bits, (n - bits) as nat);
        let v = bits_value(stream, 0, bits);
        let p = pow2(bits);
        let q = pow2((n - bits) as nat);
        vstd::arithmetic::power2::lemma_pow2_pos((n - bits) as nat);
        assert(v * q < p * q) by (nonlinear_arith)
            requires
                v < p,
                q > 0,
        ;
    }
}

impl<'s> BitReaderReversed<'s> {
    #[verifier::type_invariant]
    spec fn well_formed(&self) -> bool {
        &&& self.bit_off < 8
        &&& self.byte_idx <= self.source@.len()
        &&& self.bit_off > 0 ==> self.byte_idx < self.source@.len()
    }

    /// The bytes this reader reads from.
    pub closed spec fn source(&self) -> Seq<u8> {
        self.source@
    }

    /// The number of bits that are left to read: the bits below this
    /// position.
    pub closed spec fn bits_remaining(&self) -> nat {
        (8 * self.byte_idx + self.bit_off) as nat
    }

    /// A reader just below the end mark of `source`; `None` if there is no
    /// end mark.
    pub fn new(source: &'s [u8]) -> (res: Option<BitReaderReversed<'s>>)
        ensures
            match spec_stream_bits(source@) {
                Some(bits) => res matches Some(reader) && reader.source() == source@
                    && reader.bits_remaining() == bits,
                None => res is None,
            },
            res matches Some(reader) ==> reader.bits_remaining() < 8 * source@.len(),
    {
        let len: usize = source.len();
        if len == 0 {
            return None;
        }
        let last: u8 = source[len - 1];
        if last == 0 {
            return None;
        }
        proof {
            lemma2_to64();
            lemma_bit_length_le(last as nat, 8);
        }
        let mark: u32 = highest_bit_set(last as u32) - 1;
        Some(BitReaderReversed { byte_idx: len - 1, bit_off: mark as u8, source })
    }

    /// Whether `n` more bits can be read.
    pub fn has_bits(&self, n: usize) -> (res: bool)
        ensures
            res <==> n <= self.bits_remaining(),
    {
        proof {
            use_type_invariant(self);
        }
        let whole: usize = n / 8;
        let part: usize = n % 8;
        whole < self.byte_idx || (whole == self.byte_idx && part <= self.bit_off as usize)
    }

    /// Whether all bits have been read.
    pub fn is_empty(&self) -> (res: bool)
        ensures
            res <==> self.bits_remaining() == 0,
    {
        self.byte_idx == 0 && self.bit_off == 0
    }

    /// Reads the next `n` bits as a number, the first bit read being its
    /// most significant digit. Fails with `BitstreamOverrun`, and leaves the
    /// reader where it was, if fewer than `n` bits are left.
    pub fn get_bits(&mut self, n: usize) -> (res: Result<u64, DecodeError>)
        requires
            n <= 64,
        ensures
            final(self).source() == old(self).source(),
            match res {
                Ok(value) => {
                    &&& n <= old(self).bits_remaining()
                    &&& final(self).bits_remaining() == old(self).bits_remaining() - n
                    &&& value == bits_value(
                        old(self).source(),
                        old(self).bits_remaining() - n,
                        n as nat,
                    )
                },
                Err(e) => {
                    &&& e == DecodeError::BitstreamOverrun
                    &&& n > old(self).bits_remaining()
                    &&& final(self).bits_remaining() == old(self).bits_remaining()
                },
            },
    {
        if !self.has_bits(n) {
            return Err(DecodeError::BitstreamOverrun);
        }
        proof {
            use_type_invariant(&*self);
        }
        let source = self.source;
        let whole: usize = n / 8;
        let part: u8 = (n % 8) as u8;
        let (byte_idx, bit_off) = if part <= self.bit_off {
            (self.byte_idx - whole, self.bit_off - part)
        } else {
            (self.byte_idx - whole - 1, self.bit_off + 8 - part)
        };
        let value: u64 = extract_bits(source, byte_idx, bit_off, n);
        *self = BitReaderReversed { byte_idx, bit_off, source };
        Ok(value)
    }

    /// The next `n` bits as a number, without reading them; zeros stand for
    /// the bits that the stream does not have.
    pub fn peek_bits(&self, n: usize) -> (value: u64)
        requires
            n <= 56,
        ensures
            value == spec_peek(self.source(), self.bits_remaining(), n as nat),
            value < pow2(n as nat),
    {
        proof {
            use_type_invariant(self);
            lemma_peek_bound(self.source(), self.bits_remaining(), n as nat);
        }
        if self.has_bits(n) {
            let whole: usize = n / 8;
            let part: u8 = (n % 8) as u8;
            let (byte_idx, bit_off) = if part <= self.bit_off {
                (self.byte_idx - whole, self.bit_off - part)
            } else {
                (self.byte_idx - whole - 1, self.bit_off + 8 - part)
            };
            extract_bits(self.source, byte_idx, bit_off, n)
        } else {
            let left: usize = 8 * self.byte_idx + self.bit_off as usize;
            let high: u64 = extract_bits(self.source, 0, 0, left);
            proof {
                lemma2_to64();
                lemma_bits_value_bound(self.source@, 0, left as nat);
                lemma_pow2_strictly_increases(n as nat, 64);
                lemma_u64_shl_is_mul(high, (n - left) as u64);
            }
            high << ((n - left) as u64)
        }
    }

    /// Passes over the next `n` bits.
    pub fn skip_bits(&mut self, n: usize)
        requires
            n <= old(self).bits_remaining(),
        ensures
            final(self).source() == old(self).source(),
            final(self).bits_remaining() == old(self).bits_remaining() - n,
    {
        proof {
            use_type_invariant(&*self);
        }
        let source = self.source;
        let whole: usize = n / 8;
        let part: u8 = (n % 8) as u8;
        let (byte_idx, bit_off) = if part <= self.bit_off {
            (self.byte_idx - whole, self.bit_off - part)
        } else {
            (self.byte_idx - whole - 1, self.bit_off + 8 - part)
        };
        *self = BitReaderReversed { byte_idx, bit_off, source };
    }
}

} // verus!
