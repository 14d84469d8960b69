use ruzstd::decoding::bit_reader::BitReader;
use ruzstd::decoding::bit_reader_reverse::BitReaderReversed;
use ruzstd::errors::DecodeError;

#[test]
fn forward_reader_is_lsb_first() {
    let data = [0b1010_0110u8, 0b0101_1100, 0xFF];
    let mut br = BitReader::new(&data);
    assert_eq!(br.get_bits(0), Ok(0));
    assert_eq!(br.get_bits(1), Ok(0));
    assert_eq!(br.get_bits(2), Ok(0b11));
    assert_eq!(br.get_bits(5), Ok(0b10100));
    assert_eq!(br.bytes_read(), 1);
    assert_eq!(br.get_bits(3), Ok(0b100));
    assert_eq!(br.bytes_read(), 2);
    // across a byte boundary: the five high bits of byte 1, then three of byte 2
    assert_eq!(br.get_bits(8), Ok(0b111_01011));
    assert!(br.has_bits(5));
    assert!(!br.has_bits(6));
    assert_eq!(br.get_bits(6), Err(DecodeError::ShortInput));
    assert_eq!(br.get_bits(5), Ok(0b11111));
    assert_eq!(br.bytes_read(), 3);
    assert_eq!(br.get_bits(1), Err(DecodeError::ShortInput));
    assert_eq!(br.get_bits(0), Ok(0));
}

#[test]
fn forward_reader_reads_whole_words() {
    let data = [0x01u8, 0x23, 0x45, 0x67, 0x89, 0xAB, 0xCD, 0xEF, 0x55];
    let mut br = BitReader::new(&data);
    assert_eq!(br.get_bits(64), Ok(0xEFCD_AB89_6745_2301));
    assert_eq!(br.get_bits(8), Ok(0x55));
    let mut br = BitReader::new(&data);
    assert_eq!(br.get_bits(4), Ok(1));
    assert_eq!(br.get_bits(64), Ok(0x5EFC_DAB8_9674_5230));
    assert_eq!(br.get_bits(4), Ok(5));
}

#[test]
fn forward_reader_returns_bits() {
    let data = [0b1010_0110u8, 0b0101_1100];
    let mut br = BitReader::new(&data);
    assert_eq!(br.get_bits(11), Ok(0b100_1010_0110));
    br.return_bits(5);
    assert_eq!(br.bytes_read(), 1);
    assert_eq!(br.get_bits(5), Ok(0b10010));
    br.return_bits(11);
    assert_eq!(br.bytes_read(), 0);
    assert_eq!(br.get_bits(16), Ok(0b0101_1100_1010_0110));
}

#[test]
fn backward_reader_starts_below_the_end_mark() {
    // the last byte is 0b0001_0110: the mark is bit 4, four bits lie below it
    let data = [0b1010_0110u8, 0b0001_0110];
    let mut br = BitReaderReversed::new(&data).unwrap();
    assert!(br.has_bits(12));
    assert!(!br.has_bits(13));
    assert_eq!(br.get_bits(3), Ok(0b011));
    assert_eq!(br.get_bits(0), Ok(0));
    // one bit of the last byte, then the two high bits of the first
    assert_eq!(br.get_bits(3), Ok(0b010));
    assert_eq!(br.get_bits(7), Err(DecodeError::BitstreamOverrun));
    assert!(!br.is_empty());
    assert_eq!(br.get_bits(6), Ok(0b10_0110));
    assert!(br.is_empty());
    assert_eq!(br.get_bits(1), Err(DecodeError::BitstreamOverrun));
}

#[test]
fn backward_reader_needs_an_end_mark() {
    assert!(BitReaderReversed::new(&[]).is_none());
    assert!(BitReaderReversed::new(&[0xFF, 0x00]).is_none());
    // a last byte of 1 is the mark alone
    let data = [0xA5u8, 0x01];
    let mut br = BitReaderReversed::new(&data).unwrap();
    assert_eq!(br.get_bits(8), Ok(0xA5));
    assert!(br.is_empty());
    let data = [0x01u8];
    let br = BitReaderReversed::new(&data).unwrap();
    assert!(br.is_empty());
    // a last byte of 0x80 has seven bits below the mark
    let data = [0x80u8];
    let mut br = BitReaderReversed::new(&data).unwrap();
    assert_eq!(br.get_bits(7), Ok(0));
    assert!(br.is_empty());
}

#[test]
fn backward_reader_reads_whole_words() {
    let data = [0x01u8, 0x23, 0x45, 0x67, 0x89, 0xAB, 0xCD, 0xEF, 0x15];
    let mut br = BitReaderReversed::new(&data).unwrap();
    assert_eq!(br.get_bits(4), Ok(5));
    assert_eq!(br.get_bits(64), Ok(0xEFCD_AB89_6745_2301));
    assert!(br.is_empty());
}
