use futures::Async;
use tds_types::transport::{
    write_bytes_fragment, write_u16_fragment, write_varchar_fragment, SendBuffer, TdsBuf,
    TdsTransport,
};
use tds_types::wire::{encode_utf16_le, utf16_le_len};

#[test]
fn send_buffer_takes_what_fits() {
    let mut target = SendBuffer::new(5);
    assert_eq!(target.remaining(), 5);
    assert_eq!(target.write(&[1, 2, 3]), 3);
    assert_eq!(target.remaining(), 2);
    assert_eq!(target.write(&[4, 5, 6, 7]), 2);
    assert_eq!(target.remaining(), 0);
    assert_eq!(target.write(&[8]), 0);
    assert_eq!(target.as_slice(), &[1, 2, 3, 4, 5]);
}

#[test]
fn send_buffer_is_free_again_when_taken() {
    let mut target = SendBuffer::new(2);
    assert_eq!(target.write(&[1, 2, 3]), 2);
    assert_eq!(target.take(), vec![1, 2]);
    assert_eq!(target.remaining(), 2);
    assert_eq!(target.as_slice(), &[] as &[u8]);
    assert_eq!(target.write(&[3]), 1);
    assert_eq!(target.take(), vec![3]);
    assert_eq!(target.take(), Vec::<u8>::new());
}

#[test]
fn send_buffer_without_room() {
    let mut target = SendBuffer::new(0);
    assert_eq!(target.remaining(), 0);
    assert_eq!(target.write(&[1]), 0);
    assert_eq!(target.write(&[]), 0);
}

#[test]
fn bytes_fragment_reports_left_and_written() {
    let field = [10, 11, 12, 13, 14];
    let mut target = SendBuffer::new(2);
    assert_eq!(write_bytes_fragment(&mut target, &field, 0), (3, 2));
    assert_eq!(target.take(), vec![10, 11]);
    assert_eq!(write_bytes_fragment(&mut target, &field, 2), (1, 2));
    assert_eq!(target.take(), vec![12, 13]);
    assert_eq!(write_bytes_fragment(&mut target, &field, 4), (0, 1));
    assert_eq!(target.take(), vec![14]);
    assert_eq!(write_bytes_fragment(&mut target, &field, 5), (0, 0));
    assert_eq!(target.take(), Vec::<u8>::new());
}

#[test]
fn bytes_fragment_into_a_full_buffer() {
    let mut target = SendBuffer::new(1);
    assert_eq!(target.write(&[9]), 1);
    assert_eq!(write_bytes_fragment(&mut target, &[1, 2, 3], 1), (2, 0));
    assert_eq!(target.as_slice(), &[9]);
}

#[test]
fn u16_fragment_is_low_byte_first() {
    let mut target = SendBuffer::new(1);
    assert_eq!(write_u16_fragment(&mut target, 0x0102, 0), (1, 1));
    assert_eq!(target.take(), vec![0x02]);
    assert_eq!(write_u16_fragment(&mut target, 0x0102, 1), (0, 1));
    assert_eq!(target.take(), vec![0x01]);
    assert_eq!(write_u16_fragment(&mut target, 0x0102, 2), (0, 0));
    let mut target = SendBuffer::new(8);
    assert_eq!(write_u16_fragment(&mut target, 0xFFFE, 0), (0, 2));
    assert_eq!(target.take(), vec![0xFE, 0xFF]);
}

#[test]
fn varchar_fragment_resumes_inside_a_code_unit() {
    let mut target = SendBuffer::new(3);
    assert_eq!(write_varchar_fragment(&mut target, "Hi!", 0), (3, 3));
    assert_eq!(target.take(), vec![b'H', 0, b'i']);
    assert_eq!(write_varchar_fragment(&mut target, "Hi!", 3), (0, 3));
    assert_eq!(target.take(), vec![0, b'!', 0]);
    assert_eq!(write_varchar_fragment(&mut target, "", 0), (0, 0));
}

#[test]
fn utf16_encoding() {
    assert_eq!(encode_utf16_le(""), Vec::<u8>::new());
    assert_eq!(encode_utf16_le("Hi"), vec![b'H', 0, b'i', 0]);
    assert_eq!(encode_utf16_le("\u{ffff}"), vec![0xFF, 0xFF]);
    assert_eq!(encode_utf16_le("\u{d7ff}\u{e000}"), vec![0xFF, 0xD7, 0x00, 0xE0]);
    assert_eq!(encode_utf16_le("\u{10000}"), vec![0x00, 0xD8, 0x00, 0xDC]);
    assert_eq!(encode_utf16_le("\u{10ffff}"), vec![0xFF, 0xDB, 0xFF, 0xDF]);
    assert_eq!(encode_utf16_le("\u{1f600}"), vec![0x3D, 0xD8, 0x00, 0xDE]);
}

#[test]
fn utf16_encoding_agrees_with_the_standard_library() {
    let s = "The quick brown \u{1f98a} jumps over the lazy \u{72d7}; \u{e9}t\u{e9} \u{10ffff}";
    let mut expected = Vec::new();
    for unit in s.encode_utf16() {
        expected.push(unit as u8);
        expected.push((unit >> 8) as u8);
    }
    assert_eq!(encode_utf16_le(s), expected);
    assert_eq!(utf16_le_len(s), Some(expected.len() as u16));
}

#[test]
fn utf16_length_up_to_the_bound() {
    assert_eq!(utf16_le_len(""), Some(0));
    assert_eq!(utf16_le_len("Hi"), Some(4));
    assert_eq!(utf16_le_len("\u{1f600}"), Some(4));
    assert_eq!(utf16_le_len(&"a".repeat(32767)), Some(65534));
    assert_eq!(utf16_le_len(&"a".repeat(32768)), None);
    assert_eq!(utf16_le_len(&"a".repeat(100_000)), None);
    // 16383 pairs and one unit are 65534 bytes, one unit more is too much
    let pairs = "\u{1f600}".repeat(16383);
    assert_eq!(utf16_le_len(&format!("{}a", pairs)), Some(65534));
    assert_eq!(utf16_le_len(&format!("{}ab", pairs)), None);
    assert_eq!(utf16_le_len(&format!("{}\u{1f600}", pairs)), None);
}

#[test]
fn transport_reads_in_order_of_arrival() {
    let mut trans = TdsTransport::new();
    assert_eq!(trans.available(), 0);
    assert_eq!(trans.peek_u8(), Async::NotReady);
    assert_eq!(trans.read_u8(), Async::NotReady);
    trans.feed(&[1, 2]);
    trans.feed(&[]);
    trans.feed(&[3]);
    assert_eq!(trans.available(), 3);
    assert_eq!(trans.peek_u8(), Async::Ready(1));
    assert_eq!(trans.read_u8(), Async::Ready(1));
    trans.feed(&[4, 5]);
    assert_eq!(trans.available(), 4);
    assert_eq!(trans.read_u8(), Async::Ready(2));
    trans.consume(2);
    assert_eq!(trans.read_u8(), Async::Ready(5));
    assert_eq!(trans.read_u8(), Async::NotReady);
    trans.consume(0);
    assert_eq!(trans.available(), 0);
}

#[test]
fn transport_reads_an_integer_whole_or_not_at_all() {
    let mut trans = TdsTransport::new();
    trans.feed(&[0xAA, 0x04, 0x03, 0x02]);
    assert_eq!(trans.read_u8(), Async::Ready(0xAA));
    assert_eq!(trans.read_i32_le(), Async::NotReady);
    assert_eq!(trans.available(), 3);
    trans.feed(&[0x01, 0xFF, 0xFF, 0xFF, 0xFF, 0x07]);
    assert_eq!(trans.read_i32_le(), Async::Ready(0x0102_0304));
    assert_eq!(trans.read_i32_le(), Async::Ready(-1));
    assert_eq!(trans.read_i32_le(), Async::NotReady);
    assert_eq!(trans.read_u8(), Async::Ready(0x07));
}

#[test]
fn buffer_view_gives_its_bytes() {
    let bytes = [1u8, 2, 3];
    let view = TdsBuf::new(&bytes[1..]);
    assert_eq!(view.as_slice(), &[2, 3]);
    let copy = view;
    assert_eq!(copy, view);
}
