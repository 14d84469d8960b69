use vstd::prelude::*;
use vstd::string::StringExecFns;
use crate::errors::DecodeError;

verus! {

/// The header of the sequences section of a compressed block.
#[derive(Debug, Copy, Clone)]
pub struct SequencesHeader {
    pub num_sequences: u32,
    /// How the three kinds of code are compressed. A section without
    /// sequences says nothing about it.
    pub modes: Option<CompressionModes>,
}

/// One instruction of the block: copy `ll` literals, then `ml` bytes from
/// `of` back. `of` is the offset value as the bitstream holds it: 1, 2 and 3
/// name recent offsets, a larger value is the distance plus 3.
#[derive(Debug, Copy, Clone, PartialEq, Eq, Structural)]
pub struct Sequence {
    pub ll: u32,
    pub ml: u32,
    pub of: u32,
}

/// The digit `d` as text.
pub open spec fn spec_digit(d: nat) -> Seq<char>
    recommends
        d < 10,
{
    if d == 0 {
        "0"@
    } else if d == 1 {
        "1"@
    } else if d == 2 {
        "2"@
    } else if d == 3 {
        "3"@
    } else if d == 4 {
        "4"@
    } else if d == 5 {
        "5"@
    } else if d == 6 {
        "6"@
    } else if d == 7 {
        "7"@
    } else if d == 8 {
        "8"@
    } else {
        "9"@
    }
}

/// The number `n` in decimal notation: its digits, the most significant
/// first, without leading zeros.
pub open spec fn spec_decimal(n: nat) -> Seq<char>
    decreases n,
{
    if n < 10 {
        spec_digit(n)
    } else {
        spec_decimal(n / 10) + spec_digit(n % 10)
    }
}

/// The digit `d` as text.
fn digit(d: u32) -> (res: &'static str)
    requires
        d < 10,
    ensures
        res@ == spec_digit(d as nat),
{
    if d == 0 {
        "0"
    } else if d == 1 {
        "1"
    } else if d == 2 {
        "2"
    } else if d == 3 {
        "3"
    } else if d == 4 {
        "4"
    } else if d == 5 {
        "5"
    } else if d == 6 {
        "6"
    } else if d == 7 {
        "7"
    } else if d == 8 {
        "8"
    } else {
        "9"
    }
}

/// The number `n` in decimal notation.
pub fn decimal(n: u32) -> (res: String)
    ensures
        res@ == spec_decimal(n as nat),
    decreases n,
{
    if n < 10 {
        String::from_str(digit(n))
    } else {
        decimal(n / 10).concat(digit(n % 10))
    }
}

impl Sequence {
    /// The sequence as text: its three numbers, each behind its name.
    pub open spec fn spec_to_text(self) -> Seq<char> {
        "LL: "@ + spec_decimal(self.ll as nat) + ", ML: "@ + spec_decimal(self.ml as nat)
            + ", OF: "@ + spec_decimal(self.of as nat)
    }

    /// The sequence as text, for display.
    pub fn to_text(&self) -> (res: String)
        ensures
            res@ == self.spec_to_text(),
    {
        let ll = decimal(self.ll);
        let ml = decimal(self.ml);
        let of = decimal(self.of);
        String::from_str("LL: ").concat(ll.as_str()).concat(", ML: ").concat(ml.as_str()).concat(
            ", OF: ",
        ).concat(of.as_str())
    }
}

/// The byte that says, two bits for each kind of code, how the
/// literal-length, offset and match-length codes are compressed.
#[derive(Debug, Copy, Clone)]
pub struct CompressionModes(u8);

/// How one kind of code is compressed.
#[derive(Debug, Copy, Clone, PartialEq, Eq, Structural)]
pub enum ModeType {
    Predefined,
    RLE,
    FSECompressed,
    Repeat,
}

/// The mode that a two-bit field names.
pub open spec fn spec_decode_mode(m: int) -> ModeType {
    if m == 0 {
        ModeType::Predefined
    } else if m == 1 {
        ModeType::RLE
    } else if m == 2 {
        ModeType::FSECompressed
    } else {
        ModeType::Repeat
    }
}

impl View for CompressionModes {
    type V = u8;

    /// The modes byte itself.
    closed spec fn view(&self) -> u8 {
        self.0
    }
}

impl CompressionModes {
    /// The mode that the two-bit field `m` names.
    pub fn decode_mode(m: u8) -> (res: ModeType)
        requires
            m <= 3,
        ensures
            res == spec_decode_mode(m as int),
    {
        if m == 0 {
            ModeType::Predefined
        } else if m == 1 {
            ModeType::RLE
        } else if m == 2 {
            ModeType::FSECompressed
        } else {
            ModeType::Repeat
        }
    }

    /// The mode of the literal-length codes: bits 6 and 7.
    pub fn ll_mode(self) -> (res: ModeType)
        ensures
            res == spec_decode_mode(self@ as int / 64),
    {
        let byte: u8 = self.0;
        let m: u8 = byte >> 6;
        assert(m == byte / 64) by (bit_vector)
            requires
                m == byte >> 6,
        ;
        Self::decode_mode(m)
    }

    /// The mode of the offset codes: bits 4 and 5.
    pub fn of_mode(self) -> (res: ModeType)
        ensures
            res == spec_decode_mode((self@ as int / 16) % 4),
    {
        let byte: u8 = self.0;
        let m: u8 = (byte >> 4) & 0x3;
        assert(m == (byte / 16) % 4) by (bit_vector)
            requires
                m == (byte >> 4) & 0x3,
        ;
        Self::decode_mode(m)
    }

    /// The mode of the match-length codes: bits 2 and 3.
    pub fn ml_mode(self) -> (res: ModeType)
        ensures
            res == spec_decode_mode((self@ as int / 4) % 4),
    {
        let byte: u8 = self.0;
        let m: u8 = (byte >> 2) & 0x3;
        assert(m == (byte / 4) % 4) by (bit_vector)
            requires
                m == (byte >> 2) & 0x3,
        ;
        Self::decode_mode(m)
    }
}

/// The number of bytes that hold the sequence count, given the first of
/// them. A first byte of zero is the whole header.
pub open spec fn spec_count_bytes(first_byte: u8) -> nat {
    if first_byte < 128 {
        1
    } else if first_byte < 255 {
        2
    } else {
        3
    }
}

/// The sequence count that the header at the start of `source` holds.
pub open spec fn spec_num_sequences(source: Seq<u8>) -> int
    recommends
        source.len() >= spec_count_bytes(source[0]),
{
    if source[0] < 128 {
        source[0] as int
    } else if source[0] < 255 {
        (source[0] - 128) * 256 + source[1]
    } else {
        source[1] + source[2] * 256 + 0x7F00
    }
}

/// What a sequences header says: the sequence count and the modes byte.
pub struct SequencesHeaderView {
    pub num_sequences: u32,
    pub modes: Option<u8>,
}

impl View for SequencesHeader {
    type V = SequencesHeaderView;

    open spec fn view(&self) -> SequencesHeaderView {
        SequencesHeaderView {
            num_sequences: self.num_sequences,
            modes: match self.modes {
                Some(modes) => Some(modes@),
                None => None,
            },
        }
    }
}

/// What parsing a header from `source` into `prev` gives: the header and its
/// length in bytes, or `ShortInput` if `source` ends before the header does.
/// A header that counts no sequence is one byte long and has no modes byte:
/// the modes stay as they were in `prev`.
pub open spec fn spec_parse_from_header(prev: SequencesHeaderView, source: Seq<u8>) -> Result<
    (SequencesHeaderView, u8),
    DecodeError,
> {
    if source.len() == 0 {
        Err(DecodeError::ShortInput)
    } else if source[0] == 0 {
        Ok((SequencesHeaderView { num_sequences: 0, modes: prev.modes }, 1u8))
    } else if source.len() < spec_count_bytes(source[0]) + 1 {
        Err(DecodeError::ShortInput)
    } else {
        let count_bytes = spec_count_bytes(source[0]);
        Ok(
            (
                SequencesHeaderView {
                    num_sequences: spec_num_sequences(source) as u32,
                    modes: Some(source[count_bytes as int]),
                },
                (count_bytes + 1) as u8,
            ),
        )
    }
}

impl Default for SequencesHeader {
    fn default() -> (res: Self)
        ensures
            res@ == SequencesHeader::spec_new(),
    {
        Self::new()
    }
}

impl SequencesHeader {
    /// The header that `new` makes: no sequences, no modes.
    pub open spec fn spec_new() -> SequencesHeaderView {
        SequencesHeaderView { num_sequences: 0, modes: None }
    }

    /// A header without sequences, to be filled by `parse_from_header`.
    pub fn new() -> (res: SequencesHeader)
        ensures
            res@ == Self::spec_new(),
    {
        SequencesHeader { num_sequences: 0, modes: None }
    }

    /// Reads the header at the start of `source` into `self` and returns its
    /// length in bytes. Fails with `ShortInput`, leaving `self` as it was,
    /// if and only if `source` ends before the header does.
    pub fn parse_from_header(&mut self, source: &[u8]) -> (res: Result<u8, DecodeError>)
        ensures
            match spec_parse_from_header(old(self)@, source@) {
                Ok((header, len)) => final(self)@ == header && res == Ok::<u8, DecodeError>(len),
                Err(e) => *final(self) == *old(self) && res == Err::<u8, DecodeError>(e),
            },
    {
        if source.len() == 0 {
            return Err(DecodeError::ShortInput);
        }
        let first: u8 = source[0];
        if first == 0 {
            self.num_sequences = 0;
            return Ok(1);
        }
        let count_bytes: usize = if first < 128 {
            1
        } else if first < 255 {
            2
        } else {
            3
        };
        if source.len() < count_bytes + 1 {
            return Err(DecodeError::ShortInput);
        }
        let num_sequences: u32 = if first < 128 {
            first as u32
        } else if first < 255 {
            (first as u32 - 128) * 256 + source[1] as u32
        } else {
            source[1] as u32 + source[2] as u32 * 256 + 0x7F00
        };
        self.num_sequences = num_sequences;
        self.modes = Some(CompressionModes(source[count_bytes]));
        Ok((count_bytes + 1) as u8)
    }
}

/// A header that is cut short, wherever, is refused as short input: if
/// `source` starts with a whole header, no proper prefix of that header
/// does.
pub proof fn law_truncated_header_is_short(prev: SequencesHeaderView, source: Seq<u8>, cut: int)
    requires
        spec_parse_from_header(prev, source) matches Ok((header, len)) && 0 <= cut < len,
    ensures
        spec_parse_from_header(prev, source.subrange(0, cut)) == Err::<
            (SequencesHeaderView, u8),
            DecodeError,
        >(DecodeError::ShortInput),
{
}

} // verus!
