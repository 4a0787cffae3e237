use kisumi::rw::{CodecError, PacketVector, Reader, SimplePacketQueue, Writer};

fn reader_over(bytes: Vec<u8>) -> Reader {
    Reader::new(bytes)
}

#[test]
fn uleb128_round_trip_small_values() {
    for n in [0u32, 1, 7, 127, 128, 129, 300, 16383, 16384, 1_000_000] {
        let mut w = Writer::new(0);
        w.write_uleb128(n);
        let packet = w.build();
        let mut r = reader_over(packet);
        let (_id, _len) = r.read_headers().unwrap();
        assert_eq!(r.read_uleb128().unwrap(), n);
        assert!(r.empty());
    }
}

#[test]
fn uleb128_round_trip_extremes() {
    for n in [u32::MAX, u32::MAX - 1, 0x0FFF_FFFF, 0x1000_0000] {
        let mut w = Writer::new(0);
        w.write_uleb128(n);
        let mut r = reader_over(w.build());
        r.read_headers().unwrap();
        assert_eq!(r.read_uleb128().unwrap(), n);
    }
}

#[test]
fn uleb128_expected_bytes() {
    let mut w = Writer::new(1);
    w.write_uleb128(300);
    let packet = w.build();
    // header: id 1, padding, length 2; payload: 300 = 0b10_0101100
    assert_eq!(packet, vec![1, 0, 0, 2, 0, 0, 0, 0xAC, 0x02]);
}

#[test]
fn uleb128_overlong_zero_still_reads() {
    // 0x80 0x00 is an overlong encoding of 0.
    let mut r = reader_over(vec![0x80, 0x00]);
    assert_eq!(r.read_uleb128().unwrap(), 0);
    assert!(r.empty());
}

#[test]
fn uleb128_too_wide_is_overflow() {
    // 2^35 needs six groups; the value cannot fit in 32 bits.
    let mut r = reader_over(vec![0x80, 0x80, 0x80, 0x80, 0x80, 0x01]);
    assert_eq!(r.read_uleb128(), Err(CodecError::LengthOverflow));
}

#[test]
fn uleb128_unterminated_is_underrun() {
    let mut r = reader_over(vec![0x80, 0x80]);
    assert_eq!(r.read_uleb128(), Err(CodecError::BufferUnderrun));
}

#[test]
fn string_round_trip() {
    for s in ["", "a", "hello world", "héllo", "日本語のテスト", "exactly"] {
        let mut w = Writer::new(0);
        w.write_string(&s.to_string());
        let mut r = reader_over(w.build());
        r.read_headers().unwrap();
        assert_eq!(r.read_string().unwrap(), s);
        assert!(r.empty());
    }
}

#[test]
fn string_round_trip_long() {
    // Longer than 127 bytes, so the ULEB128 length takes two bytes.
    let s: String = "x".repeat(300);
    let mut w = Writer::new(0);
    w.write_string(&s);
    let mut r = reader_over(w.build());
    r.read_headers().unwrap();
    assert_eq!(r.read_string().unwrap(), s);
}

#[test]
fn empty_string_takes_one_byte() {
    let mut w = Writer::new(0);
    w.write_string(&String::new());
    let packet = w.build();
    assert_eq!(packet.len(), 7 + 1);
    assert_eq!(packet[7], 0x00);
    let mut r = reader_over(packet);
    r.read_headers().unwrap();
    assert_eq!(r.read_string().unwrap(), "");
    assert!(r.empty());
}

#[test]
fn invalid_utf8_reads_as_empty_string() {
    // marker, length 2, then two bytes that are not valid UTF-8
    let mut r = reader_over(vec![0x0b, 0x02, 0xff, 0xfe]);
    assert_eq!(r.read_string().unwrap(), "");
    assert!(r.empty());
}

#[test]
fn non_marker_byte_reads_as_empty_string() {
    let mut r = reader_over(vec![0x00, 0x42]);
    assert_eq!(r.read_string().unwrap(), "");
    // only the marker byte was consumed
    assert!(!r.empty());
}

#[test]
fn truncated_string_is_underrun() {
    // marker, length 5, but only two payload bytes
    let mut r = reader_over(vec![0x0b, 0x05, b'a', b'b']);
    assert_eq!(r.read_string(), Err(CodecError::BufferUnderrun));
}

#[test]
fn packet_framing_length() {
    for payload_len in [0usize, 1, 2, 300] {
        let mut w = Writer::new(33);
        for i in 0..payload_len {
            w.write_int(&(i as u8));
        }
        let packet = w.build();
        assert_eq!(packet.len(), 7 + payload_len);
        let le = (payload_len as u32).to_le_bytes();
        assert_eq!(&packet[3..7], &le);
        assert_eq!(&packet[0..2], &33u16.to_le_bytes());
        assert_eq!(packet[2], 0);
    }
}

#[test]
fn write_int_little_endian() {
    let mut w = Writer::new(0);
    w.write_int(&0x1234u16);
    w.write_int(&(-2i32));
    w.write_int(&0x01020304u32);
    w.write_int(&(-1i8));
    w.write_int(&0xABu8);
    w.write_int(&(-2i16));
    w.write_int(&0x0102030405060708u64);
    w.write_int(&(-3i64));
    let packet = w.build();
    let mut expect: Vec<u8> = Vec::new();
    expect.extend_from_slice(&[0, 0, 0]);
    expect.extend_from_slice(&30u32.to_le_bytes());
    expect.extend_from_slice(&[0x34, 0x12]);
    expect.extend_from_slice(&[0xFE, 0xFF, 0xFF, 0xFF]);
    expect.extend_from_slice(&[0x04, 0x03, 0x02, 0x01]);
    expect.extend_from_slice(&[0xFF]);
    expect.extend_from_slice(&[0xAB]);
    expect.extend_from_slice(&[0xFE, 0xFF]);
    expect.extend_from_slice(&[0x08, 0x07, 0x06, 0x05, 0x04, 0x03, 0x02, 0x01]);
    expect.extend_from_slice(&[0xFD, 0xFF, 0xFF, 0xFF, 0xFF, 0xFF, 0xFF, 0xFF]);
    assert_eq!(packet, expect);
}

#[test]
fn read_int_round_trips_signed_values() {
    let mut w = Writer::new(0);
    w.write_int(&i8::MIN);
    w.write_int(&i16::MIN);
    w.write_int(&i32::MIN);
    w.write_int(&i64::MIN);
    w.write_int(&u64::MAX);
    let mut r = reader_over(w.build());
    r.read_headers().unwrap();
    assert_eq!(r.read_int::<i8>().unwrap(), i8::MIN);
    assert_eq!(r.read_int::<i16>().unwrap(), i16::MIN);
    assert_eq!(r.read_int::<i32>().unwrap(), i32::MIN);
    assert_eq!(r.read_int::<i64>().unwrap(), i64::MIN);
    assert_eq!(r.read_int::<u64>().unwrap(), u64::MAX);
    assert!(r.empty());
}

#[test]
fn read_int_underrun() {
    let mut r = reader_over(vec![1, 2, 3]);
    assert_eq!(r.read_int::<u32>(), Err(CodecError::BufferUnderrun));
    // nothing was consumed
    assert_eq!(r.read_int::<u16>().unwrap(), 0x0201);
}

#[test]
fn read_headers_fields() {
    let mut r = reader_over(vec![5, 0, 9, 3, 0, 0, 0, 0xAA, 0xBB, 0xCC]);
    let (id, len) = r.read_headers().unwrap();
    assert_eq!(id, 5);
    assert_eq!(len, 3);
    assert_eq!(r.read_int::<u8>().unwrap(), 0xAA);
}

#[test]
fn read_headers_underrun() {
    let mut r = reader_over(vec![5, 0, 0, 1]);
    assert_eq!(r.read_headers(), Err(CodecError::BufferUnderrun));
}

#[test]
fn i32_list_round_trip() {
    let mut w = Writer::new(0);
    w.write_i32_list(vec![1, -1, 1000, i32::MIN, i32::MAX]);
    let mut r = reader_over(w.build());
    r.read_headers().unwrap();
    assert_eq!(
        r.read_i32_l().unwrap(),
        vec![1, -1, 1000, i32::MIN, i32::MAX]
    );
    assert!(r.empty());
}

#[test]
fn i32_list_empty() {
    let mut w = Writer::new(0);
    w.write_i32_list(Vec::new());
    let mut r = reader_over(w.build());
    r.read_headers().unwrap();
    assert_eq!(r.read_i32_l().unwrap(), Vec::<i32>::new());
}

#[test]
fn i32_list_truncated_is_underrun() {
    // count says 2 but only one element follows
    let mut r = reader_over(vec![2, 0, 1, 0, 0, 0]);
    assert_eq!(r.read_i32_l(), Err(CodecError::BufferUnderrun));
}

#[test]
fn incr_buffer_skips_exactly() {
    let mut r = reader_over(vec![9, 9, 9, 7, 0]);
    r.incr_buffer(3);
    assert_eq!(r.read_int::<u16>().unwrap(), 7);
    assert!(r.empty());
}

#[test]
fn incr_buffer_past_end_consumes_all() {
    let mut r = reader_over(vec![1, 2]);
    r.incr_buffer(10);
    assert!(r.empty());
}

#[test]
fn simple_packet_queue_keeps_order() {
    let mut q = SimplePacketQueue::new();
    q.queue(vec![1, 2]);
    q.queue(vec![3]);
    assert_eq!(q.as_bytes(), vec![1, 2, 3]);
    let q2 = SimplePacketQueue::from(vec![4, 5]);
    assert_eq!(q2.as_bytes(), vec![4, 5]);
}

#[test]
fn build_drains_the_writer() {
    let mut w = Writer::new(2);
    w.write_int(&1u8);
    let first = w.build();
    assert_eq!(first, vec![2, 0, 0, 1, 0, 0, 0, 1]);
    // the payload buffer was drained, so a second build is an empty packet
    let second = w.build();
    assert_eq!(second, vec![2, 0, 0, 0, 0, 0, 0]);
}
