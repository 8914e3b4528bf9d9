use hex_decode::{decode, DecodeError};

#[test]
fn empty_text_decodes_to_no_bytes() {
    assert_eq!(decode(b""), Ok(vec![]));
}

#[test]
fn marker_alone_decodes_to_no_bytes() {
    assert_eq!(decode(b"0x"), Ok(vec![]));
}

#[test]
fn single_byte() {
    assert_eq!(decode(b"7b"), Ok(vec![0x7b]));
}

#[test]
fn marker_is_transparent() {
    assert_eq!(decode(b"0x7b"), decode(b"7b"));
    assert_eq!(decode(b"0x7b"), Ok(vec![0x7b]));
    assert_eq!(decode(b"0xdeadbeef"), Ok(vec![0xde, 0xad, 0xbe, 0xef]));
    assert_eq!(decode(b"0x007b3"), decode(b"007b3"));
}

#[test]
fn upper_case_marker_is_not_a_marker() {
    assert_eq!(decode(b"0X7b"), Err(DecodeError::InvalidCharacter));
}

#[test]
fn marker_is_taken_once() {
    assert_eq!(decode(b"0x0x7b"), Err(DecodeError::InvalidCharacter));
}

#[test]
fn marker_counts_only_in_front() {
    assert_eq!(decode(b"7b0x"), Err(DecodeError::InvalidCharacter));
    assert_eq!(decode(b"x7b"), Err(DecodeError::InvalidCharacter));
    assert_eq!(decode(b"00x7b"), Err(DecodeError::InvalidCharacter));
}

#[test]
fn leading_zeros_are_ignored() {
    assert_eq!(decode(b"007b"), Ok(vec![0x7b]));
    assert_eq!(decode(b"7b"), Ok(vec![0x7b]));
    assert_eq!(decode(b"007b"), decode(b"7b"));
    assert_eq!(decode(b"07b"), Ok(vec![0x7b]));
    assert_eq!(decode(b"0000000007b"), Ok(vec![0x7b]));
    assert_eq!(decode(b"0x0007b"), Ok(vec![0x7b]));
}

#[test]
fn zeros_inside_and_behind_are_kept() {
    assert_eq!(decode(b"7b00"), Ok(vec![0x7b, 0x00]));
    assert_eq!(decode(b"700b"), Ok(vec![0x70, 0x0b]));
    assert_eq!(decode(b"10000"), Ok(vec![0x01, 0x00, 0x00]));
    assert_eq!(decode(b"0100"), Ok(vec![0x01, 0x00]));
}

#[test]
fn odd_length_reads_as_one_more_zero_in_front() {
    assert_eq!(decode(b"7b3"), Ok(vec![0x07, 0xb3]));
    assert_eq!(decode(b"07b3"), Ok(vec![0x07, 0xb3]));
    assert_eq!(decode(b"7b3"), decode(b"07b3"));
    assert_eq!(decode(b"f"), Ok(vec![0x0f]));
    assert_eq!(decode(b"0xabc"), Ok(vec![0x0a, 0xbc]));
}

#[test]
fn invalid_character_fails() {
    assert_eq!(decode(b"12g4"), Err(DecodeError::InvalidCharacter));
}

#[test]
fn invalid_character_fails_wherever_it_stands() {
    assert_eq!(decode(b"g124"), Err(DecodeError::InvalidCharacter));
    assert_eq!(decode(b"124g"), Err(DecodeError::InvalidCharacter));
    assert_eq!(decode(b"0x12g4"), Err(DecodeError::InvalidCharacter));
    assert_eq!(decode(b"00g"), Err(DecodeError::InvalidCharacter));
    assert_eq!(decode(b" 7b"), Err(DecodeError::InvalidCharacter));
    assert_eq!(decode(b"7b\n"), Err(DecodeError::InvalidCharacter));
    assert_eq!(decode(b"-7b"), Err(DecodeError::InvalidCharacter));
    assert_eq!(decode(b"x"), Err(DecodeError::InvalidCharacter));
}

#[test]
fn bytes_that_are_no_text_fail() {
    assert_eq!(decode(&[0xff, 0xfe]), Err(DecodeError::InvalidCharacter));
    assert_eq!(decode(&[0x00]), Err(DecodeError::InvalidCharacter));
    assert_eq!(decode(&[0x37, 0x80]), Err(DecodeError::InvalidCharacter));
}

#[test]
fn zero_decodes_to_no_bytes() {
    assert_eq!(decode(b"00"), Ok(vec![]));
    assert_eq!(decode(b"0000"), Ok(vec![]));
    assert_eq!(decode(b"0"), Ok(vec![]));
    assert_eq!(decode(b"000"), Ok(vec![]));
    assert_eq!(decode(b"0x0"), Ok(vec![]));
    assert_eq!(decode(b"0x00"), Ok(vec![]));
    assert_eq!(decode(b"0x0000"), Ok(vec![]));
}

#[test]
fn both_cases_of_digits_are_read() {
    assert_eq!(decode(b"abcdef"), Ok(vec![0xab, 0xcd, 0xef]));
    assert_eq!(decode(b"ABCDEF"), Ok(vec![0xab, 0xcd, 0xef]));
    assert_eq!(decode(b"aBcDeF"), Ok(vec![0xab, 0xcd, 0xef]));
    assert_eq!(decode(b"0xDeadBeef"), Ok(vec![0xde, 0xad, 0xbe, 0xef]));
}

#[test]
fn every_digit_is_read() {
    assert_eq!(
        decode(b"123456789abcdef0"),
        Ok(vec![0x12, 0x34, 0x56, 0x78, 0x9a, 0xbc, 0xde, 0xf0])
    );
    assert_eq!(decode(b"ffff"), Ok(vec![0xff, 0xff]));
}

#[test]
fn text_from_a_string_or_a_vector() {
    let owned = String::from("0x7b3");
    assert_eq!(decode(owned.as_bytes()), Ok(vec![0x07, 0xb3]));
    let bytes: Vec<u8> = vec![0x37, 0x62];
    assert_eq!(decode(&bytes), Ok(vec![0x7b]));
    assert_eq!(decode("7b".as_ref()), Ok(vec![0x7b]));
}

#[test]
fn same_text_same_bytes() {
    let text = b"0x00123abc";
    let first = decode(text);
    let second = decode(text);
    assert_eq!(first, second);
    assert_eq!(first, Ok(vec![0x12, 0x3a, 0xbc]));
    assert_eq!(text, b"0x00123abc");
}

#[test]
fn length_is_half_the_significant_digits_rounded_up() {
    for digits in 1usize..=65 {
        let mut text = vec![b'0'; 3];
        text.extend(std::iter::repeat(b'1').take(digits));
        let bytes = decode(&text).unwrap();
        assert_eq!(bytes.len(), (digits + 1) / 2);
        assert_ne!(bytes[0], 0);
    }
}

#[test]
fn long_text() {
    let mut text = Vec::new();
    text.extend_from_slice(b"0x");
    let mut expected = Vec::new();
    for i in 0..5000usize {
        let byte = (i % 255 + 1) as u8;
        text.extend_from_slice(format!("{:02X}", byte).as_bytes());
        expected.push(byte);
    }
    assert_eq!(decode(&text), Ok(expected));
}

#[test]
fn value_is_kept() {
    let cases: [(&str, u64); 8] = [
        ("", 0),
        ("0", 0),
        ("1", 1),
        ("ff", 255),
        ("100", 256),
        ("0x00ffff", 65535),
        ("DEADBEEF", 0xdead_beef),
        ("0x123456789abcdef", 0x0123_4567_89ab_cdef),
    ];
    for (text, value) in cases {
        let bytes = decode(text.as_bytes()).unwrap();
        let mut read: u64 = 0;
        for b in &bytes {
            read = read * 256 + u64::from(*b);
        }
        assert_eq!(read, value);
        let minimal: Vec<u8> = value
            .to_be_bytes()
            .iter()
            .copied()
            .skip_while(|b| *b == 0)
            .collect();
        assert_eq!(bytes, minimal);
    }
}
