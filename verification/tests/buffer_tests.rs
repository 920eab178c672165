use minecrust::buffer::Buffer;
use minecrust::buffer::BufferError;

#[test]
fn new_buffer_is_empty() {
    let b = Buffer::new();
    assert_eq!(b.remaining(), 0);
}

#[test]
fn from_vec_holds_the_bytes() {
    let mut b = Buffer::from_vec(vec![1, 2, 3]);
    assert_eq!(b.remaining(), 3);
    assert_eq!(b.read_u8(), Ok(1));
    assert_eq!(b.read_u8(), Ok(2));
    assert_eq!(b.read_u8(), Ok(3));
    assert_eq!(
        b.read_u8(),
        Err(BufferError::OutOfBounds {
            want: 1,
            remaining: 0
        })
    );
}

#[test]
fn check_bytes_reports_want_and_remaining() {
    let mut b = Buffer::new();
    b.push_slice(&[9, 9, 9]);
    assert_eq!(b.check_bytes(3), Ok(()));
    assert_eq!(
        b.check_bytes(4),
        Err(BufferError::OutOfBounds {
            want: 4,
            remaining: 3
        })
    );
}

#[test]
fn read_past_end_leaves_remaining_unchanged() {
    let mut b = Buffer::new();
    b.push_slice(&[1, 2, 3]);
    assert_eq!(
        b.read_bytes(4),
        Err(BufferError::OutOfBounds {
            want: 4,
            remaining: 3
        })
    );
    assert_eq!(b.remaining(), 3);
    assert_eq!(
        b.read_i64(),
        Err(BufferError::OutOfBounds {
            want: 8,
            remaining: 3
        })
    );
    assert_eq!(b.remaining(), 3);
    let mut two = vec![0u8; 4];
    assert_eq!(
        b.read_bytes_into(&mut two),
        Err(BufferError::OutOfBounds {
            want: 4,
            remaining: 3
        })
    );
    assert_eq!(b.remaining(), 3);
    assert_eq!(two, vec![0u8; 4]);
    // the buffer is byte-for-byte reusable after the failures
    assert_eq!(b.read_bytes(3), Ok(vec![1, 2, 3]));
}

#[test]
fn read_u16_is_big_endian() {
    let mut b = Buffer::new();
    b.push_slice(&[0x12, 0x34]);
    assert_eq!(b.read_u16(), Ok(0x1234));
    assert_eq!(b.remaining(), 0);
}

#[test]
fn read_ushort_matches_read_u16() {
    let mut a = Buffer::from_vec(vec![0xab, 0xcd]);
    let mut b = Buffer::from_vec(vec![0xab, 0xcd]);
    assert_eq!(a.read_ushort(), b.read_u16());
}

#[test]
fn u16_round_trip() {
    for v in [0u16, 1, 255, 256, 25565, u16::MAX] {
        let mut b = Buffer::new();
        b.write_u16(v);
        assert_eq!(b.remaining(), 2);
        assert_eq!(b.read_u16(), Ok(v));
    }
}

#[test]
fn i64_round_trip_including_negatives() {
    for v in [0i64, 1, -1, 42, -42, i64::MAX, i64::MIN] {
        let mut b = Buffer::new();
        b.write_i64(v);
        assert_eq!(b.remaining(), 8);
        assert_eq!(b.read_i64(), Ok(v));
    }
}

#[test]
fn write_i64_is_big_endian_two_complement() {
    let mut b = Buffer::new();
    b.write_i64(-2);
    assert_eq!(
        b.read_bytes(8),
        Ok(vec![0xff, 0xff, 0xff, 0xff, 0xff, 0xff, 0xff, 0xfe])
    );
    let mut b = Buffer::new();
    b.write_i64(0x0102030405060708);
    assert_eq!(
        b.read_bytes(8),
        Ok(vec![0x01, 0x02, 0x03, 0x04, 0x05, 0x06, 0x07, 0x08])
    );
}

#[test]
fn read_buffer_gives_an_independent_cursor() {
    let mut b = Buffer::new();
    b.push_slice(&[1, 2, 3, 4, 5]);
    let mut sub = b.read_buffer(3).unwrap();
    assert_eq!(sub.remaining(), 3);
    assert_eq!(b.remaining(), 2);
    assert_eq!(sub.read_u8(), Ok(1));
    assert_eq!(b.read_u8(), Ok(4));
    assert_eq!(sub.read_bytes(2), Ok(vec![2, 3]));
}

#[test]
fn read_bytes_into_fills_exactly_its_length() {
    let mut b = Buffer::new();
    b.push_slice(&[7, 8, 9, 10]);
    let mut three = vec![0u8; 3];
    assert_eq!(b.read_bytes_into(&mut three), Ok(()));
    assert_eq!(three, vec![7, 8, 9]);
    assert_eq!(b.remaining(), 1);
}

#[test]
fn prepend_slice_inserts_before_unread_bytes() {
    let mut b = Buffer::new();
    b.push_slice(&[3, 4]);
    b.prepend_slice(&[1, 2]);
    assert_eq!(b.read_bytes(4), Ok(vec![1, 2, 3, 4]));
}

#[test]
fn prepend_buffer_moves_and_empties_the_other() {
    let mut body = Buffer::new();
    body.push_slice(&[0x10, 0x20]);
    let mut prefix = Buffer::new();
    prefix.write_var_int(2);
    body.prepend_buffer(&mut prefix);
    assert_eq!(prefix.remaining(), 0);
    assert_eq!(body.read_bytes(3), Ok(vec![0x02, 0x10, 0x20]));
}

#[test]
fn prepend_respects_consumed_bytes() {
    let mut b = Buffer::new();
    b.push_slice(&[9, 3, 4]);
    assert_eq!(b.read_u8(), Ok(9));
    b.prepend_slice(&[1, 2]);
    assert_eq!(b.read_bytes(4), Ok(vec![1, 2, 3, 4]));
}

#[test]
fn string_round_trip() {
    for s in ["", "a", "localhost", "héllo wörld ✓"] {
        let mut b = Buffer::new();
        b.write_string(s);
        assert_eq!(b.read_string(), Ok(s.to_string()));
        assert_eq!(b.remaining(), 0);
    }
}

#[test]
fn string_negative_length_fails_without_reading_body() {
    let mut b = Buffer::new();
    b.write_var_int(-1);
    b.push_slice(&[0x41, 0x42]);
    let before = b.remaining();
    assert_eq!(b.read_string(), Err(BufferError::InvalidStringLength(-1)));
    // nothing was consumed, not even the length prefix
    assert_eq!(b.remaining(), before);
    assert_eq!(b.read_string(), Err(BufferError::InvalidStringLength(-1)));
}

#[test]
fn string_short_payload_fails_atomically() {
    let mut b = Buffer::new();
    b.write_var_int(10);
    b.push_slice(&[0x41, 0x42, 0x43]);
    assert_eq!(
        b.read_string(),
        Err(BufferError::OutOfBounds {
            want: 10,
            remaining: 3
        })
    );
    assert_eq!(b.remaining(), 4);
    // once the rest arrives the same read succeeds
    b.push_slice(&[0x44, 0x45, 0x46, 0x47, 0x48, 0x49, 0x4a]);
    assert_eq!(b.read_string(), Ok("ABCDEFGHIJ".to_string()));
}

#[test]
fn string_invalid_utf8_fails_without_consuming() {
    let mut b = Buffer::new();
    b.write_var_int(2);
    b.push_slice(&[0xff, 0xfe]);
    assert_eq!(b.read_string(), Err(BufferError::InvalidUTF8String));
    assert_eq!(b.remaining(), 3);
}

#[test]
fn write_u8_and_push_byte_append() {
    let mut b = Buffer::new();
    b.write_u8(1);
    b.push_byte(2);
    assert_eq!(b.read_bytes(2), Ok(vec![1, 2]));
}
