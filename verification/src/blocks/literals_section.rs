use vstd::prelude::*;
use vstd::arithmetic::power2::{pow2, lemma2_to64};
use crate::decoding::bit_reader::BitReader;
use crate::decoding::bits::{bits_value, lemma_bits_in_byte, lemma_bits_value_bound};
use crate::errors::DecodeError;

verus! {

/// The header of the literals section of a compressed block.
#[derive(Debug, Copy, Clone)]
pub struct LiteralsSection {
    /// The number of literal bytes the section decodes to.
    pub regenerated_size: u32,
    /// The number of bytes the Huffman-coded literals occupy; only a
    /// compressed or treeless section has it.
    pub compressed_size: Option<u32>,
    /// 1 or 4; only a compressed or treeless section has it.
    pub num_streams: Option<u8>,
    pub ls_type: LiteralsSectionType,
}

/// How the literals of a block are stored.
#[derive(Debug, Copy, Clone, PartialEq, Eq, Structural)]
pub enum LiteralsSectionType {
    Raw,
    RLE,
    Compressed,
    Treeless,
}

impl LiteralsSectionType {
    /// The name of the type, as text.
    pub open spec fn spec_name(self) -> Seq<char> {
        match self {
            LiteralsSectionType::Raw => "Raw"@,
            LiteralsSectionType::RLE => "RLE"@,
            LiteralsSectionType::Compressed => "Compressed"@,
            LiteralsSectionType::Treeless => "Treeless"@,
        }
    }

    /// The name of the type, for display.
    pub fn name(&self) -> (res: &'static str)
        ensures
            res@ == self.spec_name(),
    {
        match self {
            LiteralsSectionType::Raw => "Raw",
            LiteralsSectionType::RLE => "RLE",
            LiteralsSectionType::Compressed => "Compressed",
            LiteralsSectionType::Treeless => "Treeless",
        }
    }
}

/// The section type that the two lowest bits of a header's first byte name.
pub open spec fn spec_section_type(first_byte: u8) -> LiteralsSectionType {
    let code = first_byte % 4;
    if code == 0 {
        LiteralsSectionType::Raw
    } else if code == 1 {
        LiteralsSectionType::RLE
    } else if code == 2 {
        LiteralsSectionType::Compressed
    } else {
        LiteralsSectionType::Treeless
    }
}

/// The size format: bits 2 and 3 of a header's first byte.
pub open spec fn spec_size_format(first_byte: u8) -> int {
    ((first_byte / 4) % 4) as int
}

/// Whether the section stores its literals as they are or as one repeated
/// byte, so that its header holds a regenerated size only.
pub open spec fn is_plain(ls_type: LiteralsSectionType) -> bool {
    ls_type == LiteralsSectionType::Raw || ls_type == LiteralsSectionType::RLE
}

/// The number of bits of each size field in the header of a compressed or
/// treeless section.
pub open spec fn spec_size_bits(size_format: int) -> nat {
    if size_format <= 1 {
        10
    } else if size_format == 2 {
        14
    } else {
        18
    }
}

/// The length in bytes of the header that starts with `first_byte`.
pub open spec fn spec_header_bytes(first_byte: u8) -> u8 {
    let size_format = spec_size_format(first_byte);
    if is_plain(spec_section_type(first_byte)) {
        if size_format == 1 {
            2
        } else if size_format == 3 {
            3
        } else {
            1
        }
    } else {
        if size_format <= 1 {
            3
        } else if size_format == 2 {
            4
        } else {
            5
        }
    }
}

/// The section that the header at the start of `raw` describes. A plain
/// section says nothing of streams, so that field stays as it was in `prev`.
/// The header is a little-endian bit field: two bits of type, the size
/// format, then the sizes.
pub open spec fn spec_parsed_section(prev: LiteralsSection, raw: Seq<u8>) -> LiteralsSection
    recommends
        raw.len() > 0,
        raw.len() >= spec_header_bytes(raw[0]),
{
    let ls_type = spec_section_type(raw[0]);
    let size_format = spec_size_format(raw[0]);
    if is_plain(ls_type) {
        LiteralsSection {
            regenerated_size: (if size_format == 1 {
                bits_value(raw, 4, 12)
            } else if size_format == 3 {
                bits_value(raw, 4, 20)
            } else {
                bits_value(raw, 3, 5)
            }) as u32,
            compressed_size: None,
            num_streams: prev.num_streams,
            ls_type,
        }
    } else {
        let bits = spec_size_bits(size_format);
        LiteralsSection {
            regenerated_size: bits_value(raw, 4, bits) as u32,
            compressed_size: Some(bits_value(raw, 4 + bits as int, bits) as u32),
            num_streams: Some(
                if size_format == 0 {
                    1u8
                } else {
                    4u8
                },
            ),
            ls_type,
        }
    }
}

/// What parsing a header from `raw` into `prev` gives: the section and the
/// header's length, or `ShortInput` if `raw` ends before the header does.
pub open spec fn spec_parse_from_header(prev: LiteralsSection, raw: Seq<u8>) -> Result<
    (LiteralsSection, u8),
    DecodeError,
> {
    if raw.len() == 0 || raw.len() < spec_header_bytes(raw[0]) {
        Err(DecodeError::ShortInput)
    } else {
        Ok((spec_parsed_section(prev, raw), spec_header_bytes(raw[0])))
    }
}

/// The first four bits of a byte string are the type code and the size
/// format of its first byte.
proof fn lemma_first_nibble(raw: Seq<u8>)
    requires
        raw.len() > 0,
    ensures
        bits_value(raw, 0, 2) == raw[0] % 4,
        bits_value(raw, 2, 2) == (raw[0] / 4) % 4,
{
    lemma2_to64();
    lemma_bits_in_byte(raw, 0, 0, 2);
    lemma_bits_in_byte(raw, 0, 2, 2);
}

impl Default for LiteralsSection {
    fn default() -> (res: Self)
        ensures
            res == LiteralsSection::spec_new(),
    {
        Self::new()
    }
}

impl LiteralsSection {
    /// The section that `new` makes: raw, of size zero.
    pub open spec fn spec_new() -> LiteralsSection {
        LiteralsSection {
            regenerated_size: 0,
            compressed_size: None,
            num_streams: None,
            ls_type: LiteralsSectionType::Raw,
        }
    }

    /// An empty raw section, to be filled by `parse_from_header`.
    pub fn new() -> (res: LiteralsSection)
        ensures
            res == Self::spec_new(),
    {
        LiteralsSection {
            regenerated_size: 0,
            compressed_size: None,
            num_streams: None,
            ls_type: LiteralsSectionType::Raw,
        }
    }

    /// The length in bytes of the header that starts with `first_byte`.
    /// It never fails.
    pub fn header_bytes_needed(&self, first_byte: u8) -> (res: Result<u8, DecodeError>)
        ensures
            res == Ok::<u8, DecodeError>(spec_header_bytes(first_byte)),
    {
        let ls_type = Self::section_type(first_byte)?;
        let size_format: u8 = (first_byte >> 2) & 0x3;
        assert(size_format == (first_byte / 4) % 4) by (bit_vector)
            requires
                size_format == (first_byte >> 2) & 0x3,
        ;
        match ls_type {
            LiteralsSectionType::RLE | LiteralsSectionType::Raw => {
                if size_format == 1 {
                    // the size format takes two bits, the regenerated size twelve
                    Ok(2)
                } else if size_format == 3 {
                    // the size format takes two bits, the regenerated size twenty
                    Ok(3)
                } else {
                    // the size format takes one bit, the regenerated size five
                    Ok(1)
                }
            },
            LiteralsSectionType::Compressed | LiteralsSectionType::Treeless => {
                if size_format <= 1 {
                    // both sizes take ten bits; the two formats differ in the stream count
                    Ok(3)
                } else if size_format == 2 {
                    // both sizes take fourteen bits
                    Ok(4)
                } else {
                    // both sizes take eighteen bits
                    Ok(5)
                }
            },
        }
    }

    /// Reads the header at the start of `raw` into `self` and returns its
    /// length in bytes. Fails with `ShortInput`, leaving `self` as it was,
    /// if and only if `raw` ends before the header does.
    pub fn parse_from_header(&mut self, raw: &[u8]) -> (res: Result<u8, DecodeError>)
        ensures
            match spec_parse_from_header(*old(self), raw@) {
                Ok((section, len)) => *final(self) == section && res == Ok::<u8, DecodeError>(len),
                Err(e) => *final(self) == *old(self) && res == Err::<u8, DecodeError>(e),
            },
    {
        let mut br = BitReader::new(raw);
        let type_code: u8 = match br.get_bits(2) {
            Ok(v) => {
                proof {
                    lemma_bits_value_bound(raw@, 0, 2);
                    lemma2_to64();
                }
                v as u8
            },
            Err(e) => {
                return Err(e);
            },
        };
        let size_format: u8 = match br.get_bits(2) {
            Ok(v) => {
                proof {
                    lemma_bits_value_bound(raw@, 2, 2);
                    lemma2_to64();
                }
                v as u8
            },
            Err(e) => {
                return Err(e);
            },
        };
        proof {
            lemma_first_nibble(raw@);
        }
        let ls_type = Self::section_type(type_code)?;
        assert(ls_type == spec_section_type(raw@[0]));

        let bytes_needed: u8 = self.header_bytes_needed(raw[0])?;
        if raw.len() < bytes_needed as usize {
            return Err(DecodeError::ShortInput);
        }
        proof {
            lemma2_to64();
        }

        match ls_type {
            LiteralsSectionType::RLE | LiteralsSectionType::Raw => {
                let size_bits: usize = if size_format == 1 {
                    12
                } else if size_format == 3 {
                    20
                } else {
                    // the size format took one bit only: the fourth bit read
                    // belongs to the size
                    br.return_bits(1);
                    5
                };
                let ghost start = br.position() as int;
                let regenerated = match br.get_bits(size_bits) {
                    Ok(v) => v,
                    Err(e) => {
                        return Err(e);
                    },
                };
                proof {
                    lemma_bits_value_bound(raw@, start, size_bits as nat);
                }
                self.ls_type = ls_type;
                self.compressed_size = None;
                self.regenerated_size = regenerated as u32;
                Ok(bytes_needed)
            },
            LiteralsSectionType::Compressed | LiteralsSectionType::Treeless => {
                let num_streams: u8 = if size_format == 0 {
                    1
                } else {
                    4
                };
                let size_bits: usize = if size_format <= 1 {
                    10
                } else if size_format == 2 {
                    14
                } else {
                    18
                };
                let regenerated = match br.get_bits(size_bits) {
                    Ok(v) => v,
                    Err(e) => {
                        return Err(e);
                    },
                };
                let compressed = match br.get_bits(size_bits) {
                    Ok(v) => v,
                    Err(e) => {
                        return Err(e);
                    },
                };
                proof {
                    lemma_bits_value_bound(raw@, 4, size_bits as nat);
                    lemma_bits_value_bound(raw@, 4 + size_bits, size_bits as nat);
                }
                self.ls_type = ls_type;
                self.num_streams = Some(num_streams);
                self.regenerated_size = regenerated as u32;
                self.compressed_size = Some(compressed as u32);
                Ok(bytes_needed)
            },
        }
    }

    /// The section type that the two lowest bits of `raw` name. Every value
    /// of those two bits names a type, so this never fails.
    pub fn section_type(raw: u8) -> (res: Result<LiteralsSectionType, DecodeError>)
        ensures
            res == Ok::<LiteralsSectionType, DecodeError>(spec_section_type(raw)),
    {
        let t: u8 = raw & 0x3;
        assert(t == raw % 4) by (bit_vector)
            requires
                t == raw & 0x3,
        ;
        if t == 0 {
            Ok(LiteralsSectionType::Raw)
        } else if t == 1 {
            Ok(LiteralsSectionType::RLE)
        } else if t == 2 {
            Ok(LiteralsSectionType::Compressed)
        } else if t == 3 {
            Ok(LiteralsSectionType::Treeless)
        } else {
            Err(DecodeError::LiteralsHeaderCorrupt)
        }
    }
}

/// A header that is cut short, wherever, is refused as short input: if
/// `raw` starts with a whole header, no proper prefix of that header does.
pub proof fn law_truncated_header_is_short(prev: LiteralsSection, raw: Seq<u8>, cut: int)
    requires
        spec_parse_from_header(prev, raw) matches Ok((section, len)) && 0 <= cut < len,
    ensures
        spec_parse_from_header(prev, raw.subrange(0, cut)) == Err::<
            (LiteralsSection, u8),
            DecodeError,
        >(DecodeError::ShortInput),
{
}

} // verus!
