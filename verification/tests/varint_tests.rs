use minecrust::buffer::Buffer;
use minecrust::buffer::BufferError;

fn encode(v: i32) -> Vec<u8> {
    let mut b = Buffer::new();
    b.write_var_int(v);
    let n = b.remaining();
    b.read_bytes(n).unwrap()
}

fn decode(bytes: &[u8]) -> Result<i32, BufferError> {
    let mut b = Buffer::new();
    b.push_slice(bytes);
    b.read_var_int()
}

#[test]
fn var_int_round_trip_all_shapes() {
    let values = [
        0i32,
        1,
        2,
        127,
        128,
        255,
        300,
        25565,
        2097151,
        2147483647,
        -1,
        -2,
        -128,
        -255,
        -2147483648,
    ];
    for v in values {
        assert_eq!(decode(&encode(v)), Ok(v));
    }
}

#[test]
fn var_int_known_encodings() {
    assert_eq!(encode(0), vec![0x00]);
    assert_eq!(encode(1), vec![0x01]);
    assert_eq!(encode(127), vec![0x7f]);
    assert_eq!(encode(128), vec![0x80, 0x01]);
    assert_eq!(encode(300), vec![0xac, 0x02]);
    assert_eq!(encode(25565), vec![0xdd, 0xc7, 0x01]);
    assert_eq!(encode(-1), vec![0xff, 0xff, 0xff, 0xff, 0x0f]);
    assert_eq!(encode(i32::MIN), vec![0x80, 0x80, 0x80, 0x80, 0x08]);
}

#[test]
fn var_int_round_trip_consumes_exactly_its_bytes() {
    for v in [0i32, 7, -7, i32::MAX, i32::MIN] {
        let mut b = Buffer::new();
        b.write_var_int(v);
        b.push_byte(0xAB);
        assert_eq!(b.read_var_int(), Ok(v));
        assert_eq!(b.remaining(), 1);
        assert_eq!(b.read_u8(), Ok(0xAB));
    }
}

#[test]
fn var_int_overflow_five_continuation_bytes() {
    // five continuation-bit bytes followed by a sixth byte: over-long
    let r = decode(&[0x80, 0x80, 0x80, 0x80, 0x80, 0x01]);
    assert_eq!(
        r,
        Err(BufferError::InvalidVarIntSize {
            position: 35,
            limit: 32
        })
    );
    // all-ones variant
    let r = decode(&[0xff, 0xff, 0xff, 0xff, 0xff, 0x7f]);
    assert_eq!(
        r,
        Err(BufferError::InvalidVarIntSize {
            position: 35,
            limit: 32
        })
    );
}

#[test]
fn var_int_five_bytes_with_terminator_succeeds() {
    // a terminating byte within the first five always decodes
    assert_eq!(decode(&[0xff, 0xff, 0xff, 0xff, 0x7f]), Ok(-1));
    assert_eq!(decode(&[0x80, 0x80, 0x80, 0x80, 0x00]), Ok(0));
    assert_eq!(decode(&[0xff, 0xff, 0xff, 0xff, 0x07]), Ok(i32::MAX));
}

#[test]
fn var_int_incomplete_fails_without_consuming() {
    let mut b = Buffer::new();
    b.push_slice(&[0x80, 0x80]);
    assert_eq!(
        b.read_var_int(),
        Err(BufferError::OutOfBounds {
            want: 1,
            remaining: 0
        })
    );
    // nothing consumed: the same bytes are still there
    assert_eq!(b.remaining(), 2);
    assert_eq!(b.read_u8(), Ok(0x80));
    assert_eq!(b.read_u8(), Ok(0x80));
}

#[test]
fn peek_var_int_consumes_nothing() {
    let mut b = Buffer::new();
    b.write_var_int(300);
    assert_eq!(b.peek_var_int(), Ok((300, 2)));
    assert_eq!(b.remaining(), 2);
    assert_eq!(b.read_var_int(), Ok(300));
    assert_eq!(b.remaining(), 0);
}

#[test]
fn var_int_ignores_high_bits_of_fifth_byte() {
    // the fifth byte carries bits 28..=31; its upper bits are discarded
    assert_eq!(decode(&[0xff, 0xff, 0xff, 0xff, 0x7f]), Ok(-1));
    assert_eq!(decode(&[0xff, 0xff, 0xff, 0xff, 0x0f]), Ok(-1));
}
