use ruzstd::blocks::block::BlockType;
use ruzstd::blocks::literals_section::{LiteralsSection, LiteralsSectionType};
use ruzstd::blocks::sequence_section::{Sequence, SequencesHeader};
use ruzstd::decoding::block_decoder::{decode_block_content, read_block_header};
use ruzstd::decoding::literals_section_decoder::decode_literals;
use ruzstd::decoding::scratch::{DecoderScratch, FSEScratch, HuffmanScratch};
use ruzstd::decoding::sequence_section_decoder::{decode_sequences, lookup_ll_code, lookup_ml_code};
use ruzstd::errors::DecodeError;

// A backward bitstream of the fields given, the first field being the
// first that is read: each field is a value and its number of bits.
fn stream(fields: &[(u32, u32)]) -> Vec<u8> {
    let total: u32 = fields.iter().map(|f| f.1).sum();
    let mut bytes = vec![0u8; (total as usize + 8) / 8];
    let mut set = |position: u32| bytes[(position / 8) as usize] |= 1 << (position % 8);
    set(total);
    let mut top = total;
    for &(value, bits) in fields {
        for k in 0..bits {
            if (value >> (bits - 1 - k)) & 1 == 1 {
                set(top - 1 - k);
            }
        }
        top -= bits;
    }
    bytes
}

// The code of each symbol of the Huffman table with the weights 4, 3, 2, 0, 1
// (and 1 for the last symbol).
fn code(symbol: u8) -> (u32, u32) {
    match symbol {
        0 => (0b1, 1),
        1 => (0b01, 2),
        2 => (0b001, 3),
        4 => (0b0000, 4),
        5 => (0b0001, 4),
        _ => panic!("the symbol has no code"),
    }
}

fn coded(symbols: &[u8]) -> Vec<u8> {
    let fields: Vec<(u32, u32)> = symbols.iter().map(|s| code(*s)).collect();
    stream(&fields)
}

const TABLE: [u8; 4] = [127 + 5, 0x43, 0x20, 0x10];

fn section(ls_type: LiteralsSectionType, regenerated: u32, compressed: usize, streams: u8) -> LiteralsSection {
    LiteralsSection {
        regenerated_size: regenerated,
        compressed_size: Some(compressed as u32),
        num_streams: Some(streams),
        ls_type,
    }
}

#[test]
fn raw_literals() {
    let mut scratch = HuffmanScratch::new();
    let mut target = b">".to_vec();
    let mut raw = LiteralsSection::new();
    raw.regenerated_size = 5;
    assert_eq!(decode_literals(&raw, &mut scratch, b"hello world", &mut target), Ok(5));
    assert_eq!(&target[..], b">hello");
    assert_eq!(decode_literals(&raw, &mut scratch, b"hell", &mut target), Err(DecodeError::ShortInput));
    assert_eq!(&target[..], b">hello");
}

#[test]
fn rle_literals() {
    let mut scratch = HuffmanScratch::new();
    let mut target = Vec::new();
    let mut rle = LiteralsSection::new();
    rle.ls_type = LiteralsSectionType::RLE;
    rle.regenerated_size = 6;
    assert_eq!(decode_literals(&rle, &mut scratch, b"xyz", &mut target), Ok(1));
    assert_eq!(&target[..], b"xxxxxx");
    assert_eq!(decode_literals(&rle, &mut scratch, b"", &mut target), Err(DecodeError::ShortInput));
    rle.regenerated_size = 0;
    assert_eq!(decode_literals(&rle, &mut scratch, b"q", &mut target), Ok(1));
    assert_eq!(&target[..], b"xxxxxx");
}

#[test]
fn huffman_literals_in_one_stream() {
    let symbols = [0u8, 1, 2, 4, 5, 0, 0, 1];
    let mut source = TABLE.to_vec();
    source.extend_from_slice(&coded(&symbols));
    let size = source.len();
    source.extend_from_slice(b"what follows");
    let mut scratch = HuffmanScratch::new();
    let mut target = vec![9];
    let compressed = section(LiteralsSectionType::Compressed, 8, size, 1);
    assert_eq!(decode_literals(&compressed, &mut scratch, &source, &mut target), Ok(size as u32));
    assert_eq!(target, vec![9, 0, 1, 2, 4, 5, 0, 0, 1]);
    assert_eq!(scratch.table.max_num_bits, 4);

    // the next block may use the table again
    let again = coded(&[5, 5, 4, 0]);
    let treeless = section(LiteralsSectionType::Treeless, 4, again.len(), 1);
    let mut target = Vec::new();
    assert_eq!(decode_literals(&treeless, &mut scratch, &again, &mut target), Ok(again.len() as u32));
    assert_eq!(target, vec![5, 5, 4, 0]);
}

#[test]
fn huffman_literals_in_four_streams() {
    let parts: [&[u8]; 4] = [&[0, 1, 2], &[4, 5, 0], &[0, 0, 1], &[2]];
    let streams: Vec<Vec<u8>> = parts.iter().map(|p| coded(p)).collect();
    let mut source = TABLE.to_vec();
    for part in &streams[..3] {
        source.extend_from_slice(&(part.len() as u16).to_le_bytes());
    }
    for part in &streams {
        source.extend_from_slice(part);
    }
    let mut scratch = HuffmanScratch::new();
    let mut target = Vec::new();
    let compressed = section(LiteralsSectionType::Compressed, 10, source.len(), 4);
    assert_eq!(
        decode_literals(&compressed, &mut scratch, &source, &mut target),
        Ok(source.len() as u32)
    );
    assert_eq!(target, vec![0, 1, 2, 4, 5, 0, 0, 0, 1, 2]);

    // the first three streams hold a quarter each, rounded up: not 2, 4, 3, 1
    let parts: [&[u8]; 4] = [&[0, 1], &[2, 4, 5, 0], &[0, 0, 1], &[2]];
    let streams: Vec<Vec<u8>> = parts.iter().map(|p| coded(p)).collect();
    let mut source = TABLE.to_vec();
    for part in &streams[..3] {
        source.extend_from_slice(&(part.len() as u16).to_le_bytes());
    }
    for part in &streams {
        source.extend_from_slice(part);
    }
    let compressed = section(LiteralsSectionType::Compressed, 10, source.len(), 4);
    let mut target = Vec::new();
    assert_eq!(
        decode_literals(&compressed, &mut scratch, &source, &mut target),
        Err(DecodeError::LiteralsHeaderCorrupt)
    );
    assert!(target.is_empty());
}

#[test]
fn literals_that_contradict_their_header() {
    let mut source = TABLE.to_vec();
    source.extend_from_slice(&coded(&[0, 1, 2]));
    let mut scratch = HuffmanScratch::new();
    let mut target = Vec::new();
    // four literals are announced, three are there
    let compressed = section(LiteralsSectionType::Compressed, 4, source.len(), 1);
    assert_eq!(
        decode_literals(&compressed, &mut scratch, &source, &mut target),
        Err(DecodeError::LiteralsHeaderCorrupt)
    );
    // four streams, but no room for their sizes
    let compressed = section(LiteralsSectionType::Compressed, 4, TABLE.len() + 5, 4);
    let mut short = TABLE.to_vec();
    short.extend_from_slice(&[1, 0, 1, 0, 1]);
    assert_eq!(
        decode_literals(&compressed, &mut scratch, &short, &mut target),
        Err(DecodeError::LiteralsHeaderCorrupt)
    );
    // sizes that reach beyond the section
    let mut long = TABLE.to_vec();
    long.extend_from_slice(&[1, 0, 1, 0, 9, 0, 1, 1, 1]);
    let compressed = section(LiteralsSectionType::Compressed, 4, long.len(), 4);
    assert_eq!(
        decode_literals(&compressed, &mut scratch, &long, &mut target),
        Err(DecodeError::LiteralsHeaderCorrupt)
    );
    // a section without sizes
    let mut bare = LiteralsSection::new();
    bare.ls_type = LiteralsSectionType::Compressed;
    assert_eq!(
        decode_literals(&bare, &mut scratch, &source, &mut target),
        Err(DecodeError::LiteralsHeaderCorrupt)
    );
    assert!(target.is_empty());
}

#[test]
fn literal_streams_that_end_in_the_wrong_place() {
    let mut scratch = HuffmanScratch::new();
    let mut target = Vec::new();
    // a single 0 bit below the end mark: every code that starts with 0 is longer
    let mut source = TABLE.to_vec();
    source.push(0b0000_0010);
    let compressed = section(LiteralsSectionType::Compressed, 1, source.len(), 1);
    assert_eq!(
        decode_literals(&compressed, &mut scratch, &source, &mut target),
        Err(DecodeError::BitstreamOverrun)
    );
    // a stream without end mark
    let mut source = TABLE.to_vec();
    source.extend_from_slice(&[0xFF, 0x00]);
    let compressed = section(LiteralsSectionType::Compressed, 8, source.len(), 1);
    assert_eq!(
        decode_literals(&compressed, &mut scratch, &source, &mut target),
        Err(DecodeError::BitstreamOverrun)
    );
    // the source ends before the section does
    let compressed = section(LiteralsSectionType::Compressed, 8, source.len() + 1, 1);
    assert_eq!(
        decode_literals(&compressed, &mut scratch, &source, &mut target),
        Err(DecodeError::ShortInput)
    );
    assert!(target.is_empty());
}

#[test]
fn treeless_literals_need_a_table() {
    let mut scratch = HuffmanScratch::new();
    let mut target = Vec::new();
    let source = coded(&[0, 1]);
    let treeless = section(LiteralsSectionType::Treeless, 2, source.len(), 1);
    assert_eq!(
        decode_literals(&treeless, &mut scratch, &source, &mut target),
        Err(DecodeError::HuffmanTableCorrupt)
    );
}

#[test]
fn literal_and_match_length_codes() {
    assert_eq!(lookup_ll_code(0), (0, 0));
    assert_eq!(lookup_ll_code(15), (15, 0));
    assert_eq!(lookup_ll_code(16), (16, 1));
    assert_eq!(lookup_ll_code(17), (18, 1));
    assert_eq!(lookup_ll_code(19), (22, 1));
    assert_eq!(lookup_ll_code(20), (24, 2));
    assert_eq!(lookup_ll_code(21), (28, 2));
    assert_eq!(lookup_ll_code(22), (32, 3));
    assert_eq!(lookup_ll_code(23), (40, 3));
    assert_eq!(lookup_ll_code(24), (48, 4));
    assert_eq!(lookup_ll_code(25), (64, 6));
    assert_eq!(lookup_ll_code(26), (128, 7));
    assert_eq!(lookup_ll_code(30), (2048, 11));
    assert_eq!(lookup_ll_code(35), (65536, 16));
    assert_eq!(lookup_ml_code(0), (3, 0));
    assert_eq!(lookup_ml_code(31), (34, 0));
    assert_eq!(lookup_ml_code(32), (35, 1));
    assert_eq!(lookup_ml_code(35), (41, 1));
    assert_eq!(lookup_ml_code(36), (43, 2));
    assert_eq!(lookup_ml_code(37), (47, 2));
    assert_eq!(lookup_ml_code(38), (51, 3));
    assert_eq!(lookup_ml_code(39), (59, 3));
    assert_eq!(lookup_ml_code(40), (67, 4));
    assert_eq!(lookup_ml_code(41), (83, 4));
    assert_eq!(lookup_ml_code(42), (99, 5));
    assert_eq!(lookup_ml_code(43), (131, 7));
    assert_eq!(lookup_ml_code(44), (259, 8));
    assert_eq!(lookup_ml_code(52), (65539, 16));
}

fn header(bytes: &[u8]) -> SequencesHeader {
    let mut header = SequencesHeader::new();
    header.parse_from_header(bytes).unwrap();
    header
}

#[test]
fn sequences_with_predefined_tables() {
    // the first states: literal lengths 24 (code 2), offsets 14 (code 2),
    // match lengths 3 (code 3); the extra bits of the offset; the steps to
    // the states 23 (code 1), 0 (code 0) and 5 (code 3); the extra bits of
    // the second offset
    let bits = stream(&[(24, 6), (14, 5), (3, 6), (1, 2), (23, 5), (0, 5), (5, 5), (2, 3)]);
    let mut scratch = FSEScratch::new();
    let mut target = vec![Sequence { ll: 9, ml: 9, of: 9 }];
    assert_eq!(decode_sequences(&header(&[2, 0]), &bits, &mut scratch, &mut target), Ok(()));
    assert_eq!(
        target,
        vec![Sequence { ll: 2, ml: 6, of: 5 }, Sequence { ll: 1, ml: 3, of: 10 }]
    );
    assert_eq!(scratch.literal_lengths.accuracy_log, 6);
    assert_eq!(scratch.offsets.accuracy_log, 5);
    assert_eq!(scratch.match_lengths.accuracy_log, 6);

    // the same tables again, by the repeat mode
    let bits = stream(&[(24, 6), (14, 5), (3, 6), (3, 2)]);
    assert_eq!(decode_sequences(&header(&[1, 0b1111_1100]), &bits, &mut scratch, &mut target), Ok(()));
    assert_eq!(target, vec![Sequence { ll: 2, ml: 6, of: 7 }]);
}

#[test]
fn sequences_with_one_symbol_each() {
    // literal-length code 1, offset code 2, match-length code 0, each
    // repeated: the stream holds the extra bits of the offsets only
    let mut source = vec![1, 2, 0];
    source.extend_from_slice(&stream(&[(1, 2), (0, 2), (3, 2)]));
    let mut scratch = FSEScratch::new();
    let mut target = Vec::new();
    assert_eq!(
        decode_sequences(&header(&[3, 0b0101_0100]), &source, &mut scratch, &mut target),
        Ok(())
    );
    assert_eq!(
        target,
        vec![
            Sequence { ll: 1, ml: 3, of: 5 },
            Sequence { ll: 1, ml: 3, of: 4 },
            Sequence { ll: 1, ml: 3, of: 7 },
        ]
    );
    assert_eq!(scratch.offsets.decode.len(), 1);
    // a code that does not exist
    let mut source = vec![36, 2, 0];
    source.extend_from_slice(&stream(&[(1, 2)]));
    assert_eq!(
        decode_sequences(&header(&[1, 0b0101_0100]), &source, &mut scratch, &mut target),
        Err(DecodeError::FSEProbsInvalid)
    );
    // the source ends before the symbols do
    assert_eq!(
        decode_sequences(&header(&[1, 0b0101_0100]), &[1, 2], &mut scratch, &mut target),
        Err(DecodeError::ShortInput)
    );
}

#[test]
fn sequences_with_a_described_table() {
    // literal lengths: a table of the codes 0 and 1, half of the states
    // each; its first state is 0, which stands for code 0
    let mut source = vec![0b0001_0000u8, 0b0011_1111];
    source.extend_from_slice(&stream(&[(0, 5), (14, 5), (3, 6), (2, 2)]));
    let mut scratch = FSEScratch::new();
    let mut target = Vec::new();
    assert_eq!(
        decode_sequences(&header(&[1, 0b1000_0000]), &source, &mut scratch, &mut target),
        Ok(())
    );
    assert_eq!(target, vec![Sequence { ll: 0, ml: 6, of: 6 }]);
    assert_eq!(scratch.literal_lengths.accuracy_log, 5);
    assert_eq!(scratch.literal_lengths.symbol_probabilities, vec![16, 16]);
    // an accuracy log above 8 is too much for offsets
    let mut scratch = FSEScratch::new();
    assert_eq!(
        decode_sequences(&header(&[1, 0b0010_0000]), &[0x04, 0xFF, 0xFF], &mut scratch, &mut target),
        Err(DecodeError::FSEProbsInvalid)
    );
}

#[test]
fn sequence_streams_that_end_in_the_wrong_place() {
    let mut scratch = FSEScratch::new();
    let mut target = Vec::new();
    // bits are left over
    let bits = stream(&[(24, 6), (14, 5), (3, 6), (1, 2), (0, 3)]);
    assert_eq!(
        decode_sequences(&header(&[1, 0]), &bits, &mut scratch, &mut target),
        Err(DecodeError::BitstreamUnderrun)
    );
    // the extra bits are missing
    let bits = stream(&[(24, 6), (14, 5), (3, 6), (1, 1)]);
    assert_eq!(
        decode_sequences(&header(&[1, 0]), &bits, &mut scratch, &mut target),
        Err(DecodeError::BitstreamOverrun)
    );
    // a state is missing
    let bits = stream(&[(24, 6), (14, 5)]);
    assert_eq!(
        decode_sequences(&header(&[1, 0]), &bits, &mut scratch, &mut target),
        Err(DecodeError::BitstreamOverrun)
    );
    // the second sequence is missing
    let bits = stream(&[(24, 6), (14, 5), (3, 6), (1, 2)]);
    assert_eq!(
        decode_sequences(&header(&[2, 0]), &bits, &mut scratch, &mut target),
        Err(DecodeError::BitstreamOverrun)
    );
    // no end mark
    assert_eq!(
        decode_sequences(&header(&[1, 0]), &[0x55, 0x00], &mut scratch, &mut target),
        Err(DecodeError::BitstreamOverrun)
    );
    assert_eq!(
        decode_sequences(&header(&[1, 0]), &[], &mut scratch, &mut target),
        Err(DecodeError::BitstreamOverrun)
    );
}

#[test]
fn repeat_mode_needs_a_table() {
    let mut scratch = FSEScratch::new();
    let mut target = Vec::new();
    let bits = stream(&[(24, 6), (14, 5), (3, 6), (1, 2)]);
    assert_eq!(
        decode_sequences(&header(&[1, 0b1100_0000]), &bits, &mut scratch, &mut target),
        Err(DecodeError::FSEProbsInvalid)
    );
    // a header without modes cannot be decoded
    assert_eq!(
        decode_sequences(&SequencesHeader::new(), &bits, &mut scratch, &mut target),
        Err(DecodeError::FSEProbsInvalid)
    );
}

#[test]
fn block_headers() {
    let header = read_block_header(&[0x29, 0x00, 0x00, 0xFF]).unwrap();
    assert!(header.last_block);
    assert_eq!(header.block_type, BlockType::Raw);
    assert_eq!(header.decompressed_size, 5);
    assert_eq!(header.content_size, 5);
    let header = read_block_header(&[0x3A, 0x00, 0x00]).unwrap();
    assert!(!header.last_block);
    assert_eq!(header.block_type, BlockType::RLE);
    assert_eq!(header.decompressed_size, 7);
    assert_eq!(header.content_size, 1);
    // a compressed block of 0x1234 bytes
    let value: u32 = 1 | (2 << 1) | (0x1234 << 3);
    let header = read_block_header(&value.to_le_bytes()[..3]).unwrap();
    assert!(header.last_block);
    assert_eq!(header.block_type, BlockType::Compressed);
    assert_eq!(header.decompressed_size, 0);
    assert_eq!(header.content_size, 0x1234);
    // the largest block
    let value: u32 = 128 * 1024 << 3;
    assert_eq!(read_block_header(&value.to_le_bytes()[..3]).unwrap().content_size, 128 * 1024);
    let value: u32 = (128 * 1024 + 1) << 3;
    assert_eq!(
        read_block_header(&value.to_le_bytes()[..3]).map(|h| h.content_size),
        Err(DecodeError::CorruptedBlockHeader)
    );
    assert_eq!(
        read_block_header(&[0x06, 0, 0]).map(|h| h.content_size),
        Err(DecodeError::ReservedBlockType)
    );
    for cut in 0..3 {
        assert_eq!(
            read_block_header(&[0x29, 0x00, 0x00][..cut]).map(|h| h.content_size),
            Err(DecodeError::ShortInput)
        );
    }
}

#[test]
fn block_content() {
    let mut scratch = DecoderScratch::new(1024);
    let raw = read_block_header(&[0x29, 0x00, 0x00]).unwrap();
    assert_eq!(decode_block_content(&raw, &mut scratch, b"hello and more"), Ok(()));
    let rle = read_block_header(&[0x1A, 0x00, 0x00]).unwrap();
    assert_eq!(decode_block_content(&rle, &mut scratch, b"!?"), Ok(()));
    assert_eq!(&scratch.buffer.buffer[..], b"hello!!!");
    assert_eq!(decode_block_content(&raw, &mut scratch, b"hell"), Err(DecodeError::ShortInput));
    assert_eq!(decode_block_content(&rle, &mut scratch, b""), Err(DecodeError::ShortInput));

    // a compressed block without sequences: its literals are its output
    let content = [0x10, b'a', b'b', 0x00];
    let value: u32 = 2 << 1 | (content.len() as u32) << 3;
    let compressed = read_block_header(&value.to_le_bytes()[..3]).unwrap();
    assert_eq!(decode_block_content(&compressed, &mut scratch, &content), Ok(()));
    assert_eq!(&scratch.buffer.buffer[..], b"hello!!!ab");
    assert_eq!(scratch.offset_hist, [1, 4, 8]);
    // bytes behind the count of no sequences
    let content = [0x10, b'a', b'b', 0x00, 0x00];
    let value: u32 = 2 << 1 | (content.len() as u32) << 3;
    let compressed = read_block_header(&value.to_le_bytes()[..3]).unwrap();
    assert_eq!(
        decode_block_content(&compressed, &mut scratch, &content),
        Err(DecodeError::SequenceCountMismatch)
    );
    // a match at distance zero: the offset value 3 after no literals, when
    // the most recent distance is 1
    let mut content = vec![0x00, 0x01, 0x00];
    // literal lengths state 0 (code 0), offsets state 23 (code 1: the offset
    // value is 2 + 1 extra bit), match lengths state 0 (code 0)
    content.extend_from_slice(&stream(&[(0, 6), (23, 5), (0, 6), (1, 1)]));
    let value: u32 = 2 << 1 | (content.len() as u32) << 3;
    let compressed = read_block_header(&value.to_le_bytes()[..3]).unwrap();
    let mut scratch = DecoderScratch::new(1024);
    assert_eq!(
        decode_block_content(&compressed, &mut scratch, &content),
        Err(DecodeError::ZeroOffset)
    );
}

#[test]
fn block_that_puts_out_too_much() {
    // literals of one byte more than 128 KiB
    let content = [0x1C, 0x00, 0x20];
    let value: u32 = 2 << 1 | (content.len() as u32) << 3;
    let compressed = read_block_header(&value.to_le_bytes()[..3]).unwrap();
    let mut scratch = DecoderScratch::new(1024);
    assert_eq!(
        decode_block_content(&compressed, &mut scratch, &content),
        Err(DecodeError::LiteralsHeaderCorrupt)
    );
    // the literals "ab"; sequences of one literal and a match of 65539
    // bytes from one byte back: one is fine, two are more than a block may
    // put out
    for (count, expected) in [(1u8, Ok(())), (2, Err(DecodeError::SequenceCountMismatch))] {
        let mut content = vec![0x10, b'a', b'b', count, 0b0101_0100, 1, 2, 52];
        let mut fields = Vec::new();
        for _ in 0..count {
            fields.push((0, 2));
            fields.push((0, 16));
        }
        content.extend_from_slice(&stream(&fields));
        let value: u32 = 2 << 1 | (content.len() as u32) << 3;
        let compressed = read_block_header(&value.to_le_bytes()[..3]).unwrap();
        let mut scratch = DecoderScratch::new(1 << 20);
        assert_eq!(decode_block_content(&compressed, &mut scratch, &content), expected);
        if expected.is_ok() {
            assert_eq!(scratch.buffer.len(), 2 + 65539);
            assert!(scratch.buffer.buffer[..65540].iter().all(|b| *b == b'a'));
            assert_eq!(scratch.buffer.buffer[65540], b'b');
        } else {
            assert!(scratch.buffer.is_empty());
        }
    }
}
