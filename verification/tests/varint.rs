use sqlite_reader::error::MyError;
use sqlite_reader::varint::{high_bit, read_varint, to_row_id, varint};

#[test]
fn test_one_byte() {
    let varint = vec![0b0000_0001, 0b1111_1111];
    let (n, _, _) = read_varint(&varint).unwrap();
    assert_eq!(n, 1);
}

#[test]
fn test_two_byte() {
    let varint = vec![0b1000_0001, 0b0111_1111, 0];
    let (n, _, _) = read_varint(&varint).unwrap();
    assert_eq!(n, 255);
}

#[test]
fn test_max_varint() {
    let varint = vec![
        0b1000_0001,
        0b1000_0001,
        0b1000_0001,
        0b1000_0001,
        0b1000_0001,
        0b1000_0001,
        0b1000_0001,
        0b1000_0001,
        0b0000_0001,
    ];
    let (n, _, _) = read_varint(&varint).unwrap();
    assert_eq!(
        n,
        (1u64 << 57)
            | (1u64 << 50)
            | (1u64 << 43)
            | (1u64 << 36)
            | (1u64 << 29)
            | (1u64 << 22)
            | (1u64 << 15)
            | (1u64 << 8)
            | 1u64
    );
}

#[test]
fn test_incomplete_varint() {
    let varint = vec![0b1000_0000];
    assert!(read_varint(&varint).is_err());
}

#[test]
fn test_empty_input() {
    let varint = vec![];
    assert!(read_varint(&varint).is_err());
}

#[test]
fn test_multiple_varints() {
    let varints = vec![0b0000_0010, 0b1000_0010, 0b0000_0001, 0b1000_0001, 0b0000_0001];
    let (n1, rest, _) = read_varint(&varints).unwrap();
    assert_eq!(n1, 2);
    let (n2, rest, _) = read_varint(rest).unwrap();
    assert_eq!(n2, 257);
    let (n3, _, _) = read_varint(rest).unwrap();
    assert_eq!(n3, 129);
}

#[test]
fn test_varint_with_additional_data() {
    let varint_with_data = vec![0b0000_0011, 0xff, 0xee];
    let (n, rest, _) = read_varint(&varint_with_data).unwrap();
    assert_eq!(n, 3);
    assert_eq!(rest, &[0xff, 0xee]);
}

#[test]
fn test_largest_single_byte_varint() {
    let varint = vec![0b0111_1111];
    let (n, _, _) = read_varint(&varint).unwrap();
    assert_eq!(n, 127);
}

#[test]
fn test_high_bit() {
    assert!(high_bit(0b10000000));
    assert!(high_bit(0b10111010));
    assert!(!high_bit(0b00000000));
    assert!(!high_bit(0b01111111));
}

#[test]
fn one_byte() {
    let input = &[0x15];
    let (rest, value) = varint(input).unwrap();
    assert!(rest.is_empty());
    assert_eq!(value, 0x15);
}

#[test]
fn two_bytes() {
    let input = &[0x87, 0x68];
    let (rest, value) = varint(input).unwrap();
    assert!(rest.is_empty());
    assert_eq!(value, 1000);
}

#[test]
fn three_bytes() {
    let input = &[0xc8, 0xf2, 0x19];
    let (rest, value) = varint(input).unwrap();
    assert!(rest.is_empty());
    assert_eq!(value, 1194265);
}

#[test]
fn four_bytes() {
    let input = &[0xd1, 0x9a, 0xe2, 0x67];
    let (rest, value) = varint(input).unwrap();
    assert!(rest.is_empty());
    assert_eq!(value, 170307943);
}

#[test]
fn nine_bytes() {
    let input = &[0xff, 0xff, 0xff, 0xff, 0xff, 0xff, 0xff, 0xff, 0xff];
    let (rest, value) = varint(input).unwrap();
    assert!(rest.is_empty());
    assert_eq!(value, -1);
}

#[test]
fn ten_bytes() {
    let input = &[0xff, 0xff, 0xff, 0xff, 0xff, 0xff, 0xff, 0xff, 0xff, 0xab];
    let (rest, value) = varint(input).unwrap();
    assert!(rest.len() == 1 && rest[0] == 0xab);
    assert_eq!(value, -1);
}

#[test]
fn nine_byte_varint_uses_all_bits_of_last_byte() {
    let input = [0x81, 0x80, 0x80, 0x80, 0x80, 0x80, 0x80, 0x80, 0x81];
    let (value, rest, consumed) = read_varint(&input).unwrap();
    assert_eq!(consumed, 9);
    assert!(rest.is_empty());
    assert_eq!(value, (1u64 << 57) | 0x81);
}

// The shortest varint of a value: seven bits to a byte below 2^56, and
// eight continuation bytes with a ninth byte of eight bits from there on.
fn encode(v: u64) -> Vec<u8> {
    if v >= 1 << 56 {
        let mut bytes: Vec<u8> = (0..8).map(|i| 0x80 | ((v >> (8 + 7 * (7 - i))) & 0x7f) as u8).collect();
        bytes.push(v as u8);
        return bytes;
    }
    let mut groups = vec![(v & 0x7f) as u8];
    let mut rest = v >> 7;
    while rest > 0 {
        groups.push(0x80 | (rest & 0x7f) as u8);
        rest >>= 7;
    }
    groups.reverse();
    groups
}

#[test]
fn varint_round_trip_on_chosen_values() {
    assert_eq!(encode(128), vec![0x81, 0x00]);
    assert_eq!(encode(1 << 56), vec![0x80, 0xc0, 0x80, 0x80, 0x80, 0x80, 0x80, 0x80, 0x00]);
    assert_eq!(encode(u64::MAX), vec![0xff; 9]);
    for value in [
        0u64,
        1,
        127,
        128,
        16383,
        16384,
        (1 << 56) - 1,
        1 << 56,
        (1 << 56) + 0x81,
        i64::MAX as u64,
        1 << 63,
        u64::MAX,
    ] {
        let mut bytes = encode(value);
        let length = bytes.len();
        assert!(1 <= length && length <= 9);
        bytes.extend([0xab, 0xcd]);
        let (read, rest, consumed) = read_varint(&bytes).unwrap();
        assert_eq!(read, value);
        assert_eq!(consumed, length);
        assert_eq!(rest, &[0xab, 0xcd]);
        assert_eq!(to_row_id(read), value as i64);
        let (rest, row_id) = varint(&bytes).unwrap();
        assert_eq!(row_id, value as i64);
        assert_eq!(rest, &[0xab, 0xcd]);
    }
}

#[test]
fn a_row_id_read_from_nine_bytes_can_be_negative() {
    let minus_two = [0xff, 0xff, 0xff, 0xff, 0xff, 0xff, 0xff, 0xff, 0xfe];
    assert_eq!(varint(&minus_two).unwrap().1, -2);
    let least = [0xc0, 0x80, 0x80, 0x80, 0x80, 0x80, 0x80, 0x80, 0x00];
    assert_eq!(varint(&least).unwrap().1, i64::MIN);
    let most = [0xbf, 0xff, 0xff, 0xff, 0xff, 0xff, 0xff, 0xff, 0xff];
    assert_eq!(varint(&most).unwrap().1, i64::MAX);
}

#[test]
fn truncated_varint_is_reported() {
    let input = [0x81, 0x82, 0x83];
    assert!(matches!(read_varint(&input), Err(MyError::Truncated)));
    assert!(matches!(varint(&input), Err(MyError::Truncated)));
}

#[test]
fn row_id_is_twos_complement() {
    assert_eq!(to_row_id(0), 0);
    assert_eq!(to_row_id(u64::MAX), -1);
    assert_eq!(to_row_id(1u64 << 63), i64::MIN);
}
