use ruzstd::decoding::decodebuffer::Decodebuffer;
use ruzstd::errors::DecodeError;
use ruzstd::io::error::ErrorKind;
use ruzstd::io::{LimitedSink, Write};

#[test]
fn new_buffer_is_empty() {
    let buffer = Decodebuffer::new(1024);
    assert_eq!(buffer.len(), 0);
    assert!(buffer.is_empty());
    assert_eq!(buffer.can_drain(), 0);
    assert_eq!(buffer.can_drain_to_window_size(), None);
    assert_eq!(buffer.total_output(), 0);
    assert_eq!(buffer.hashed_len(), 0);
    assert_eq!(buffer.window_size, 1024);
    assert!(buffer.dict_content.is_empty());
}

#[test]
fn push_appends_and_counts() {
    let mut buffer = Decodebuffer::new(1024);
    buffer.push(b"hello");
    buffer.push(b"");
    buffer.push(b" world");
    assert_eq!(&buffer.buffer[..], b"hello world");
    assert_eq!(buffer.len(), 11);
    assert!(!buffer.is_empty());
    assert_eq!(buffer.total_output(), 11);
    assert_eq!(buffer.can_drain(), 11);
}

#[test]
fn match_within_the_buffer() {
    let mut buffer = Decodebuffer::new(1024);
    buffer.push(b"abcde");
    assert_eq!(buffer.repeat(3, 2), Ok(()));
    assert_eq!(&buffer.buffer[..], b"abcdecd");
    assert_eq!(buffer.repeat(7, 7), Ok(()));
    assert_eq!(&buffer.buffer[..], b"abcdecdabcdecd");
    assert_eq!(buffer.total_output(), 14);
    // an empty match changes nothing, whatever its offset
    assert_eq!(buffer.repeat(14, 0), Ok(()));
    assert_eq!(buffer.repeat(0, 0), Ok(()));
    assert_eq!(buffer.len(), 14);
}

#[test]
fn overlapping_match_makes_a_run() {
    let mut buffer = Decodebuffer::new(1024);
    buffer.push(b"a");
    assert_eq!(buffer.repeat(1, 5), Ok(()));
    assert_eq!(&buffer.buffer[..], b"aaaaaa");

    let mut buffer = Decodebuffer::new(1024);
    buffer.push(b"ab");
    assert_eq!(buffer.repeat(1, 6), Ok(()));
    assert_eq!(&buffer.buffer[..], b"abbbbbbb");

    let mut buffer = Decodebuffer::new(1024);
    buffer.push(b"ab");
    assert_eq!(buffer.repeat(2, 5), Ok(()));
    assert_eq!(&buffer.buffer[..], b"abababa");
}

#[test]
fn offset_up_to_the_window_is_served() {
    let mut buffer = Decodebuffer::new(4);
    buffer.push(b"0123456789");
    assert_eq!(buffer.can_drain_to_window_size(), Some(6));
    assert_eq!(buffer.drain_to_window_size(), Some(b"012345".to_vec()));
    assert_eq!(buffer.len(), 4);
    assert_eq!(buffer.can_drain_to_window_size(), None);
    assert_eq!(buffer.drain_to_window_size(), None);
    // one byte further back than the window is too far
    assert_eq!(buffer.repeat(5, 3), Err(DecodeError::OffsetExceedsWindow));
    assert_eq!(&buffer.buffer[..], b"6789");
    assert_eq!(buffer.repeat(4, 3), Ok(()));
    assert_eq!(&buffer.buffer[..], b"6789678");
}

#[test]
fn offset_before_the_buffer_needs_a_dictionary() {
    let mut buffer = Decodebuffer::new(1024);
    buffer.push(b"ab");
    assert_eq!(buffer.repeat(3, 1), Err(DecodeError::OffsetExceedsWindow));
    assert_eq!(&buffer.buffer[..], b"ab");
    assert_eq!(buffer.total_output(), 2);
}

#[test]
fn dictionary_serves_the_first_window() {
    let mut buffer = Decodebuffer::new(100);
    buffer.set_dict_content(b"0123456789".to_vec());
    buffer.push(b"ab");
    // three bytes back into the dictionary, two bytes long
    assert_eq!(buffer.repeat(5, 2), Ok(()));
    assert_eq!(&buffer.buffer[..], b"ab78");
    // a match that the dictionary serves alone counts like any other
    assert_eq!(buffer.total_output(), 4);
    // three bytes from the dictionary, the other two from the start of the buffer
    assert_eq!(buffer.repeat(7, 5), Ok(()));
    assert_eq!(&buffer.buffer[..], b"ab78789ab");
    assert_eq!(buffer.total_output(), 9);
    // the whole dictionary, then what the buffer starts with
    assert_eq!(buffer.repeat(19, 25), Ok(()));
    assert_eq!(&buffer.buffer[..], b"ab78789ab0123456789ab78789ab012345");
    // not further back than the dictionary goes
    let len = buffer.len();
    assert_eq!(buffer.repeat(len + 11, 1), Err(DecodeError::DictionaryOffsetTooLarge));
    assert_eq!(buffer.len(), len);
}

#[test]
fn dictionary_match_counts_as_output() {
    let mut buffer = Decodebuffer::new(4);
    buffer.set_dict_content(b"0123456789".to_vec());
    // four bytes, all from the dictionary
    assert_eq!(buffer.repeat(4, 4), Ok(()));
    assert_eq!(&buffer.buffer[..], b"6789");
    assert_eq!(buffer.total_output(), 4);
    buffer.push(b"a");
    // five bytes are out, more than the window: the dictionary is out of reach
    assert_eq!(buffer.repeat(6, 1), Err(DecodeError::OffsetExceedsWindow));
    assert_eq!(&buffer.buffer[..], b"6789a");
    // and stays so after a drain
    assert_eq!(buffer.drain_to_window_size(), Some(b"6".to_vec()));
    assert_eq!(buffer.repeat(5, 1), Err(DecodeError::OffsetExceedsWindow));
    assert_eq!(&buffer.buffer[..], b"789a");
    assert_eq!(buffer.repeat(4, 1), Ok(()));
    assert_eq!(&buffer.buffer[..], b"789a7");
}

#[test]
fn match_adds_its_length_behind_the_buffer() {
    // within the buffer, overlapping, from the dictionary, from both
    for (offset, length) in [(3usize, 2usize), (1, 9), (5, 0), (7, 2), (8, 11), (15, 30)] {
        let mut buffer = Decodebuffer::new(100);
        buffer.set_dict_content(b"0123456789".to_vec());
        buffer.push(b"abcde");
        assert_eq!(buffer.repeat(offset, length), Ok(()));
        assert_eq!(buffer.len(), 5 + length);
        assert_eq!(&buffer.buffer[..5], b"abcde");
        assert_eq!(buffer.total_output(), 5 + length as u64);
    }
}

#[test]
fn dictionary_is_out_of_reach_after_the_first_window() {
    let mut buffer = Decodebuffer::new(3);
    buffer.set_dict_content(b"0123456789".to_vec());
    buffer.push(b"abc");
    assert_eq!(buffer.repeat(4, 1), Ok(()));
    assert_eq!(&buffer.buffer[..], b"abc9");
    buffer.push(b"d");
    assert_eq!(buffer.total_output(), 5);
    assert_eq!(buffer.repeat(6, 1), Err(DecodeError::OffsetExceedsWindow));
}

#[test]
fn drain_takes_everything() {
    let mut buffer = Decodebuffer::new(4);
    buffer.push(b"0123456789");
    assert_eq!(buffer.drain(), b"0123456789".to_vec());
    assert!(buffer.is_empty());
    assert_eq!(buffer.hashed_len(), 10);
    assert_eq!(buffer.total_output(), 10);
    assert_eq!(buffer.drain(), Vec::<u8>::new());
}

#[test]
fn read_fills_the_target_with_what_exceeds_the_window() {
    let mut buffer = Decodebuffer::new(4);
    buffer.push(b"0123456789");
    let mut target = [b'.'; 4];
    assert_eq!(buffer.read(&mut target).map_err(|e| e.kind()), Ok(4));
    assert_eq!(&target, b"0123");
    let mut target = [b'.'; 4];
    assert_eq!(buffer.read(&mut target).map_err(|e| e.kind()), Ok(2));
    assert_eq!(&target, b"45..");
    assert_eq!(buffer.read(&mut target).map_err(|e| e.kind()), Ok(0));
    assert_eq!(&buffer.buffer[..], b"6789");
    assert_eq!(buffer.hashed_len(), 6);
    assert_eq!(buffer.read(&mut []).map_err(|e| e.kind()), Ok(0));
}

#[test]
fn read_all_ignores_the_window() {
    let mut buffer = Decodebuffer::new(4);
    buffer.push(b"012345");
    let mut target = [b'.'; 4];
    assert_eq!(buffer.read_all(&mut target).map_err(|e| e.kind()), Ok(4));
    assert_eq!(&target, b"0123");
    let mut target = [b'.'; 4];
    assert_eq!(buffer.read_all(&mut target).map_err(|e| e.kind()), Ok(2));
    assert_eq!(&target, b"45..");
    assert!(buffer.is_empty());
    assert_eq!(buffer.read_all(&mut target).map_err(|e| e.kind()), Ok(0));
}

#[test]
fn drains_into_a_sink() {
    let mut buffer = Decodebuffer::new(4);
    buffer.push(b"0123456789");
    let mut sink: Vec<u8> = b">".to_vec();
    assert_eq!(buffer.drain_to_window_size_writer(&mut sink).map_err(|e| e.kind()), Ok(6));
    assert_eq!(&sink[..], b">012345");
    assert_eq!(buffer.drain_to_window_size_writer(&mut sink).map_err(|e| e.kind()), Ok(0));
    assert_eq!(buffer.drain_to_writer(&mut sink).map_err(|e| e.kind()), Ok(4));
    assert_eq!(&sink[..], b">0123456789");
    assert!(buffer.is_empty());
    assert_eq!(buffer.drain_to_writer(&mut sink).map_err(|e| e.kind()), Ok(0));
}

#[test]
fn failing_sink() {
    let mut buffer = Decodebuffer::new(4);
    buffer.push(b"0123456789");
    let mut sink = LimitedSink::new(5);
    // what exceeds the window is gone even if the sink refuses it
    assert_eq!(
        buffer.drain_to_window_size_writer(&mut sink).map_err(|e| e.kind()),
        Err(ErrorKind::WriteZero)
    );
    assert!(sink.bytes.is_empty());
    assert_eq!(&buffer.buffer[..], b"6789");
    assert_eq!(buffer.hashed_len(), 6);
    // a full drain changes nothing if the sink refuses the bytes
    let mut sink = LimitedSink::new(3);
    assert_eq!(buffer.drain_to_writer(&mut sink).map_err(|e| e.kind()), Err(ErrorKind::WriteZero));
    assert!(sink.bytes.is_empty());
    assert_eq!(&buffer.buffer[..], b"6789");
    assert_eq!(buffer.hashed_len(), 6);
    // with room for them, the bytes arrive
    let mut sink = LimitedSink::new(4);
    assert_eq!(buffer.drain_to_writer(&mut sink).map_err(|e| e.kind()), Ok(4));
    assert_eq!(&sink.bytes[..], b"6789");
    assert!(buffer.is_empty());
    assert_eq!(buffer.hashed_len(), 10);
}

#[test]
fn sink_is_left_alone_when_nothing_exceeds_the_window() {
    let mut buffer = Decodebuffer::new(4);
    buffer.push(b"0123");
    // a sink without room would refuse any byte
    let mut sink = LimitedSink::new(0);
    assert_eq!(buffer.drain_to_window_size_writer(&mut sink).map_err(|e| e.kind()), Ok(0));
    assert!(sink.bytes.is_empty());
    assert_eq!(&buffer.buffer[..], b"0123");
    assert_eq!(buffer.hashed_len(), 0);
}

#[test]
fn limited_sink_takes_all_or_nothing() {
    let mut sink = LimitedSink::new(5);
    assert!(sink.write_all(b"abc").is_ok());
    assert_eq!(sink.write_all(b"def").map_err(|e| e.kind()), Err(ErrorKind::WriteZero));
    assert_eq!(&sink.bytes[..], b"abc");
    assert!(sink.write_all(b"de").is_ok());
    assert!(sink.write_all(b"").is_ok());
    assert_eq!(sink.write_all(b"f").map_err(|e| e.kind()), Err(ErrorKind::WriteZero));
    assert_eq!(&sink.bytes[..], b"abcde");
    assert_eq!(sink.limit, 5);
}

#[test]
fn checksum_is_the_low_half_of_xxh64() {
    // known digests of XXH64 under seed 0
    let mut buffer = Decodebuffer::new(4);
    assert_eq!(buffer.calculated_checksum(), 0x51d8_e999);
    buffer.push(&[42]);
    // nothing has been drained yet
    assert_eq!(buffer.calculated_checksum(), 0x51d8_e999);
    assert_eq!(buffer.checksum_with_buffered(), 0xbeb0_3ae4);
    buffer.drain();
    assert_eq!(buffer.calculated_checksum(), 0xbeb0_3ae4);

    let mut buffer = Decodebuffer::new(4);
    buffer.push(b"Hello, world!\0");
    assert_eq!(buffer.checksum_with_buffered(), 0xea43_e89f);
    buffer.drain();
    assert_eq!(buffer.calculated_checksum(), 0xea43_e89f);
}

#[test]
fn checksum_does_not_depend_on_how_the_output_is_drained() {
    let data: Vec<u8> = (0..1000u32).map(|i| (i * 7 + i / 13) as u8).collect();
    let mut whole = Decodebuffer::new(16);
    whole.push(&data);
    let before = whole.checksum_with_buffered();
    whole.drain();
    let expected = whole.calculated_checksum();
    assert_eq!(before, expected);

    let mut pieces = Decodebuffer::new(16);
    let mut sink: Vec<u8> = Vec::new();
    let mut target = [0u8; 7];
    for chunk in data.chunks(37) {
        pieces.push(chunk);
        sink.extend_from_slice(&pieces.drain_to_window_size().unwrap_or_default());
        let got = pieces.read(&mut target).unwrap();
        sink.extend_from_slice(&target[..got]);
        assert_eq!(pieces.checksum_with_buffered(), {
            let mut so_far = Decodebuffer::new(16);
            so_far.push(&data[..sink.len() + pieces.len()]);
            so_far.checksum_with_buffered()
        });
    }
    let got = pieces.read_all(&mut target).unwrap();
    sink.extend_from_slice(&target[..got]);
    pieces.drain_to_writer(&mut sink).unwrap();
    assert_eq!(sink, data);
    assert_eq!(pieces.calculated_checksum(), expected);
}

#[test]
fn reset_makes_the_buffer_new() {
    let mut buffer = Decodebuffer::new(4);
    buffer.set_dict_content(b"dict".to_vec());
    buffer.push(b"0123456789");
    buffer.drain_to_window_size();
    buffer.reset(8);
    assert!(buffer.is_empty());
    assert_eq!(buffer.window_size, 8);
    assert!(buffer.dict_content.is_empty());
    assert_eq!(buffer.total_output(), 0);
    assert_eq!(buffer.hashed_len(), 0);
    assert_eq!(buffer.calculated_checksum(), 0x51d8_e999);
}

#[test]
fn vector_is_a_sink() {
    let mut sink: Vec<u8> = vec![1, 2];
    assert!(sink.write_all(&[3, 4, 5]).is_ok());
    assert!(sink.write_all(&[]).is_ok());
    assert_eq!(sink, vec![1, 2, 3, 4, 5]);
}
