//! The header of a frame.

use vstd::prelude::*;
use vstd::arithmetic::power2::{pow2, lemma2_to64, lemma_pow2_strictly_increases, lemma_pow2_unfold};
use crate::decoding::bits::{bits_value, extract_bits, lemma_bits_value_bound};
use crate::errors::DecodeError;

verus! {

/// The number that a frame starts with, stored least significant byte
/// first.
pub const MAGIC_NUM: u32 = 0xFD2F_B528;

/// The largest window that this decoder allows: 128 MiB.
pub const MAX_WINDOW_SIZE: u64 = 0x800_0000;

/// The smallest window that a buffer is made with: 1 KiB.
pub const MIN_WINDOW_SIZE: u64 = 0x400;

/// What the header of a frame says.
#[derive(Debug, Copy, Clone, PartialEq, Eq, Structural)]
pub struct FrameHeader {
    /// Whether the frame is one segment: its window is its content.
    pub single_segment: bool,
    /// Whether a checksum of the content follows the last block.
    pub content_checksum: bool,
    /// The number of bytes that a match may reach back.
    pub window_size: u64,
    /// The id of the dictionary that the frame was compressed with.
    pub dict_id: Option<u32>,
    /// The number of bytes that the frame decodes to.
    pub content_size: Option<u64>,
}

/// The number of bytes of the dictionary id, given its two-bit flag.
pub open spec fn spec_dict_id_bytes(flag: nat) -> nat {
    if flag == 3 {
        4
    } else {
        flag
    }
}

/// The number of bytes of the content size, given its two-bit flag.
pub open spec fn spec_content_size_bytes(flag: nat, single_segment: bool) -> nat {
    if flag == 0 {
        if single_segment {
            1
        } else {
            0
        }
    } else if flag == 1 {
        2
    } else if flag == 2 {
        4
    } else {
        8
    }
}

/// The window size that a window descriptor stands for: the three low
/// bits are eighths that are added to the power of two that the five high
/// bits name, starting from 1 KiB.
pub open spec fn spec_window_size(descriptor: nat) -> nat {
    let base = pow2(10 + descriptor / 8);
    base + (base / 8) * (descriptor % 8)
}

/// Whether the descriptor byte says that the frame is one segment.
pub open spec fn spec_single_segment(descriptor: u8) -> bool {
    (descriptor / 32) % 2 == 1
}

/// The number of bytes of the window descriptor: a frame of one segment
/// has none.
pub open spec fn spec_window_bytes(descriptor: u8) -> nat {
    if spec_single_segment(descriptor) {
        0
    } else {
        1
    }
}

/// The length in bytes of the frame header with the descriptor byte
/// `descriptor`.
pub open spec fn spec_frame_header_len(descriptor: u8) -> nat {
    5 + spec_window_bytes(descriptor) + spec_dict_id_bytes((descriptor % 4) as nat)
        + spec_content_size_bytes((descriptor / 64) as nat, spec_single_segment(descriptor))
}

/// What the header at the start of `raw` says, given that `raw` holds all
/// of it; `WindowTooLarge` if the window is.
pub open spec fn spec_frame_header_fields(raw: Seq<u8>) -> Result<FrameHeader, DecodeError> {
    let descriptor = raw[4];
    let single_segment = spec_single_segment(descriptor);
    let dict_bytes = spec_dict_id_bytes((descriptor % 4) as nat);
    let size_bytes = spec_content_size_bytes((descriptor / 64) as nat, single_segment);
    let dict_at = 40 + 8 * spec_window_bytes(descriptor);
    let size_at = dict_at + 8 * dict_bytes;
    let dict_id = bits_value(raw, dict_at as int, 8 * dict_bytes);
    let stored_size = bits_value(raw, size_at as int, 8 * size_bytes);
    let content_size = if size_bytes == 2 {
        stored_size + 256
    } else {
        stored_size
    };
    let window_size = if single_segment {
        content_size
    } else {
        spec_window_size(raw[5] as nat)
    };
    if window_size > MAX_WINDOW_SIZE {
        Err(DecodeError::WindowTooLarge)
    } else {
        Ok(
            FrameHeader {
                single_segment,
                content_checksum: (descriptor / 4) % 2 == 1,
                window_size: window_size as u64,
                dict_id: if dict_id == 0 {
                    None
                } else {
                    Some(dict_id as u32)
                },
                content_size: if size_bytes == 0 {
                    None
                } else {
                    Some(content_size as u64)
                },
            },
        )
    }
}

/// The frame header at the start of `raw`, and its length in bytes.
///
/// The header is the magic number, a descriptor byte and, as the
/// descriptor says, a window descriptor, a dictionary id and a content
/// size. The descriptor is a bit field, from the lowest bit: two bits of
/// dictionary id flag, the checksum flag, a reserved bit, an unused bit,
/// the single-segment flag, two bits of content size flag. A content size
/// of two bytes is stored less 256. A frame of one segment has no window
/// descriptor: its window is its content. A dictionary id of 0 stands for
/// no dictionary.
///
/// It is `ShortInput` if `raw` ends before the header does, `BadMagic` if
/// it starts with another number, `UnsupportedFrameFlags` if the reserved
/// bit is set, `WindowTooLarge` if the window is.
pub open spec fn spec_read_frame_header(raw: Seq<u8>) -> Result<(FrameHeader, u8), DecodeError> {
    if raw.len() < 4 {
        Err(DecodeError::ShortInput)
    } else if bits_value(raw, 0, 32) != MAGIC_NUM {
        Err(DecodeError::BadMagic)
    } else if raw.len() < 5 {
        Err(DecodeError::ShortInput)
    } else if (raw[4] / 8) % 2 == 1 {
        Err(DecodeError::UnsupportedFrameFlags)
    } else if raw.len() < spec_frame_header_len(raw[4]) {
        Err(DecodeError::ShortInput)
    } else {
        match spec_frame_header_fields(raw) {
            Err(e) => Err(e),
            Ok(header) => Ok((header, spec_frame_header_len(raw[4]) as u8)),
        }
    }
}

/// The window size that a window descriptor stands for.
pub fn window_size_of(descriptor: u8) -> (res: u64)
    ensures
        res == spec_window_size(descriptor as nat),
{
    let exponent: u64 = (descriptor / 8) as u64;
    let mantissa: u64 = (descriptor % 8) as u64;
    proof {
        lemma2_to64();
        lemma_pow2_42();
        lemma_pow2_strictly_increases((10 + exponent) as nat, 42);
        vstd::bits::lemma_u64_shl_is_mul(1u64, (10 + exponent) as u64);
    }
    let base: u64 = 1u64 << (10 + exponent);
    assert(base < 0x400_0000_0000);
    let eighth: u64 = base / 8;
    assert(eighth * mantissa <= eighth * 7) by (nonlinear_arith)
        requires
            mantissa <= 7,
            eighth >= 0,
    ;
    base + eighth * mantissa
}

/// The numbers of bytes of the window descriptor, the dictionary id and
/// the content size of a header with the descriptor byte `descriptor`.
fn field_bytes(descriptor: u8) -> (res: (usize, usize, usize))
    ensures
        res.0 == spec_window_bytes(descriptor),
        res.1 == spec_dict_id_bytes((descriptor % 4) as nat),
        res.2 == spec_content_size_bytes(
            (descriptor / 64) as nat,
            spec_single_segment(descriptor),
        ),
{
    let single_segment: bool = (descriptor / 32) % 2 == 1;
    let dict_flag: u8 = descriptor % 4;
    let size_flag: u8 = descriptor / 64;
    let window_bytes: usize = if single_segment {
        0
    } else {
        1
    };
    let dict_bytes: usize = if dict_flag == 3 {
        4
    } else {
        dict_flag as usize
    };
    let size_bytes: usize = if size_flag == 0 {
        if single_segment {
            1
        } else {
            0
        }
    } else if size_flag == 1 {
        2
    } else if size_flag == 2 {
        4
    } else {
        8
    };
    (window_bytes, dict_bytes, size_bytes)
}

/// Reads the fields of the header at the start of `raw`, as
/// [`spec_frame_header_fields`] describes.
fn read_fields(raw: &[u8]) -> (res: Result<FrameHeader, DecodeError>)
    requires
        raw@.len() >= 5,
        raw@.len() >= spec_frame_header_len(raw@[4]),
    ensures
        res == spec_frame_header_fields(raw@),
{
    let descriptor: u8 = raw[4];
    let (window_bytes, dict_bytes, size_bytes) = field_bytes(descriptor);
    let single_segment: bool = window_bytes == 0;
    let dict_at: usize = 5 + window_bytes;
    let size_at: usize = dict_at + dict_bytes;
    proof {
        lemma2_to64();
        lemma_bits_value_bound(raw@, 8 * dict_at, (8 * dict_bytes) as nat);
        lemma_bits_value_bound(raw@, 8 * size_at, (8 * size_bytes) as nat);
    }
    let dict_id: u64 = extract_bits(raw, dict_at, 0, 8 * dict_bytes);
    let stored_size: u64 = extract_bits(raw, size_at, 0, 8 * size_bytes);
    // only a size of two bytes is stored less 256
    let content_size: u64 = if size_bytes == 2 {
        stored_size + 256
    } else {
        stored_size
    };
    let window_size: u64 = if single_segment {
        content_size
    } else {
        window_size_of(raw[5])
    };
    if window_size > MAX_WINDOW_SIZE {
        return Err(DecodeError::WindowTooLarge);
    }
    Ok(
        FrameHeader {
            single_segment,
            content_checksum: (descriptor / 4) % 2 == 1,
            window_size,
            dict_id: if dict_id == 0 {
                None
            } else {
                Some(dict_id as u32)
            },
            content_size: if size_bytes == 0 {
                None
            } else {
                Some(content_size)
            },
        },
    )
}

/// Reads the frame header at the start of `raw`, as
/// [`spec_read_frame_header`] describes.
pub fn read_frame_header(raw: &[u8]) -> (res: Result<(FrameHeader, u8), DecodeError>)
    ensures
        res == spec_read_frame_header(raw@),
        res matches Ok(got) ==> got.1 <= raw@.len() && 5 <= got.1 <= 18,
{
    if raw.len() < 4 {
        return Err(DecodeError::ShortInput);
    }
    let magic: u64 = extract_bits(raw, 0, 0, 32);
    if magic != MAGIC_NUM as u64 {
        return Err(DecodeError::BadMagic);
    }
    if raw.len() < 5 {
        return Err(DecodeError::ShortInput);
    }
    let descriptor: u8 = raw[4];
    if (descriptor / 8) % 2 == 1 {
        return Err(DecodeError::UnsupportedFrameFlags);
    }
    let (window_bytes, dict_bytes, size_bytes) = field_bytes(descriptor);
    let header_len: usize = 5 + window_bytes + dict_bytes + size_bytes;
    if raw.len() < header_len {
        return Err(DecodeError::ShortInput);
    }
    match read_fields(raw) {
        Ok(header) => Ok((header, header_len as u8)),
        Err(e) => Err(e),
    }
}

/// The value of `2^42`.
proof fn lemma_pow2_42()
    ensures
        pow2(42) == 0x400_0000_0000,
{
    lemma2_to64();
    vstd::arithmetic::power2::lemma_pow2_adds(32, 10);
}

} // verus!
