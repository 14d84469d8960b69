//! The forward bit reader, which hands out the bits of a byte string from
//! the least significant bit of the first byte on.

use vstd::prelude::*;
use crate::decoding::bits::{bits_value, extract_bits};
use crate::errors::DecodeError;

verus! {

/// A cursor into the bits of a byte slice.
pub struct BitReader<'s> {
    byte_idx: usize,
    bit_off: u8,
    source: &'s [u8],
}

impl<'s> BitReader<'s> {
    #[verifier::type_invariant]
    spec fn well_formed(&self) -> bool {
        &&& self.bit_off < 8
        &&& self.byte_idx <= self.source@.len()
        &&& self.bit_off > 0 ==> self.byte_idx < self.source@.len()
    }

    /// The bytes this reader reads from.
    pub closed spec fn source(&self) -> Seq<u8> {
        self.source@
    }

    /// The number of bits that have been read and not returned.
    pub closed spec fn position(&self) -> nat {
        (8 * self.byte_idx + self.bit_off) as nat
    }

    /// A reader at the first bit of `source`.
    pub fn new(source: &'s [u8]) -> (res: BitReader<'s>)
        ensures
            res.source() == source@,
            res.position() == 0,
    {
        BitReader { byte_idx: 0, bit_off: 0, source }
    }

    /// Whether `n` more bits can be read.
    pub fn has_bits(&self, n: usize) -> (res: bool)
        ensures
            res <==> self.position() + n <= 8 * self.source().len(),
    {
        proof {
            use_type_invariant(self);
        }
        let bytes_left: usize = self.source.len() - self.byte_idx;
        let whole: usize = n / 8;
        let part: usize = n % 8 + self.bit_off as usize;
        let part_bytes: usize = if part == 0 {
            0
        } else if part <= 8 {
            1
        } else {
            2
        };
        whole <= bytes_left && part_bytes <= bytes_left - whole
    }

    /// The number of bytes that the bits read so far touch: the position
    /// divided by eight, rounded up.
    pub fn bytes_read(&self) -> (res: usize)
        ensures
            res == (self.position() + 7) / 8,
            res <= self.source().len(),
    {
        proof {
            use_type_invariant(self);
        }
        let len: usize = self.source.len();
        if self.bit_off == 0 {
            self.byte_idx
        } else {
            self.byte_idx + 1
        }
    }

    /// Reads the next `n` bits as a number, the first bit read being its
    /// least significant digit. Fails, and leaves the reader where it was,
    /// if fewer than `n` bits are left.
    pub fn get_bits(&mut self, n: usize) -> (res: Result<u64, DecodeError>)
        requires
            n <= 64,
        ensures
            final(self).source() == old(self).source(),
            match res {
                Ok(value) => {
                    &&& old(self).position() + n <= 8 * old(self).source().len()
                    &&& final(self).position() == old(self).position() + n
                    &&& value == bits_value(old(self).source(), old(self).position() as int, n as nat)
                },
                Err(e) => {
                    &&& e == DecodeError::ShortInput
                    &&& old(self).position() + n > 8 * old(self).source().len()
                    &&& final(self).position() == old(self).position()
                },
            },
    {
        if !self.has_bits(n) {
            return Err(DecodeError::ShortInput);
        }
        proof {
            use_type_invariant(&*self);
        }
        let source = self.source;
        let value: u64 = extract_bits(source, self.byte_idx, self.bit_off, n);
        // n <= 64, so the sum of the bit offset and n stays small
        let part: usize = self.bit_off as usize + n;
        let len: usize = source.len();
        assert(self.byte_idx + part / 8 <= len);
        let byte_idx: usize = self.byte_idx + part / 8;
        let bit_off: u8 = (part % 8) as u8;
        *self = BitReader { byte_idx, bit_off, source };
        Ok(value)
    }

    /// Steps back over the last `n` bits read, so that they are read again.
    pub fn return_bits(&mut self, n: usize)
        requires
            n <= old(self).position(),
        ensures
            final(self).source() == old(self).source(),
            final(self).position() == old(self).position() - n,
    {
        proof {
            use_type_invariant(&*self);
        }
        let whole: usize = n / 8;
        let part: u8 = (n % 8) as u8;
        let source = self.source;
        if part <= self.bit_off {
            *self = BitReader {
                byte_idx: self.byte_idx - whole,
                bit_off: self.bit_off - part,
                source,
            };
        } else {
            *self = BitReader {
                byte_idx: self.byte_idx - whole - 1,
                bit_off: self.bit_off + 8 - part,
                source,
            };
        }
    }
}

} // verus!
