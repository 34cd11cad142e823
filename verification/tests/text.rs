use binius_web_snark::codec::{
    decimal_string, decode_hex, encode_hex, parse_decimal, parse_lanes, words_from_bytes,
    words_to_be_bytes, Output,
};
use binius_web_snark::error::SessionError;

#[test]
fn decode_hex_reads_pairs_of_digits() {
    assert_eq!(decode_hex("aabbcc"), Ok(vec![0xaa, 0xbb, 0xcc]));
    assert_eq!(decode_hex("aaccaa"), Ok(vec![0xaa, 0xcc, 0xaa]));
    assert_eq!(decode_hex(""), Ok(vec![]));
    assert_eq!(decode_hex("00ff10"), Ok(vec![0x00, 0xff, 0x10]));
    assert_eq!(decode_hex("0123456789abcdef"), Ok(vec![0x01, 0x23, 0x45, 0x67, 0x89, 0xab, 0xcd, 0xef]));
    assert_eq!(decode_hex("48656c6c6f20776f726c6421"), Ok(b"Hello world!".to_vec()));
}

#[test]
fn decode_hex_takes_either_case() {
    assert_eq!(decode_hex("F9B4CA"), Ok(vec![0xf9, 0xb4, 0xca]));
    assert_eq!(decode_hex("f9B4Ca"), Ok(vec![0xf9, 0xb4, 0xca]));
    assert_eq!(decode_hex("ABCDEF"), decode_hex("abcdef"));
}

#[test]
fn decode_hex_rejects_what_is_not_hex() {
    assert_eq!(decode_hex("abc"), Err(SessionError::InputShape));
    assert_eq!(decode_hex("a"), Err(SessionError::InputShape));
    assert_eq!(decode_hex("zz"), Err(SessionError::InputShape));
    assert_eq!(decode_hex("0g"), Err(SessionError::InputShape));
    assert_eq!(decode_hex("0x12"), Err(SessionError::InputShape));
    assert_eq!(decode_hex("12 4"), Err(SessionError::InputShape));
    assert_eq!(decode_hex("é"), Err(SessionError::InputShape));
    assert_eq!(decode_hex("éa"), Err(SessionError::InputShape));
    assert_eq!(decode_hex("/0"), Err(SessionError::InputShape));
    assert_eq!(decode_hex(":0"), Err(SessionError::InputShape));
    assert_eq!(decode_hex("@0"), Err(SessionError::InputShape));
    assert_eq!(decode_hex("G0"), Err(SessionError::InputShape));
    assert_eq!(decode_hex("`0"), Err(SessionError::InputShape));
}

#[test]
fn encode_hex_writes_two_lower_case_digits_per_byte() {
    assert_eq!(encode_hex(&vec![1, 2, 3, 15, 16]), "0102030f10");
    assert_eq!(encode_hex(&vec![]), "");
    assert_eq!(encode_hex(&vec![0xaa, 0xBB, 0xcc]), "aabbcc");
    assert_eq!(encode_hex(&vec![0x00, 0x09, 0x0a, 0x9f, 0xa0, 0xff]), "00090a9fa0ff");
}

#[test]
fn hex_round_trip() {
    let all: Vec<u8> = (0..=255).collect();
    let text = encode_hex(&all);
    assert_eq!(text.len(), 512);
    assert_eq!(decode_hex(&text), Ok(all));
}

#[test]
fn words_from_bytes_reads_low_byte_first() {
    assert_eq!(words_from_bytes(&vec![0xaa, 0xbb, 0xcc]), vec![0xccbbaa]);
    assert_eq!(words_from_bytes(&vec![]), Vec::<u64>::new());
    assert_eq!(words_from_bytes(&vec![1, 2, 3, 4, 5, 6, 7, 8]), vec![0x0807060504030201]);
    assert_eq!(
        words_from_bytes(&vec![1, 2, 3, 4, 5, 6, 7, 8, 9]),
        vec![0x0807060504030201, 9]
    );
    assert_eq!(words_from_bytes(&vec![0xff; 8]), vec![u64::MAX]);
    assert_eq!(words_from_bytes(&vec![0; 17]), vec![0, 0, 0]);
    let bytes: Vec<u8> = (0..20).collect();
    let expected: Vec<u64> = bytes
        .chunks(8)
        .map(|c| {
            let mut word = [0u8; 8];
            word[..c.len()].copy_from_slice(c);
            u64::from_le_bytes(word)
        })
        .collect();
    assert_eq!(words_from_bytes(&bytes), expected);
}

#[test]
fn words_to_be_bytes_writes_high_byte_first() {
    assert_eq!(words_to_be_bytes(&vec![0x0102030405060708]), vec![1, 2, 3, 4, 5, 6, 7, 8]);
    assert_eq!(words_to_be_bytes(&vec![]), Vec::<u8>::new());
    assert_eq!(
        words_to_be_bytes(&vec![0x6a09e667, u64::MAX]),
        vec![0, 0, 0, 0, 0x6a, 0x09, 0xe6, 0x67, 255, 255, 255, 255, 255, 255, 255, 255]
    );
    let words: Vec<u64> = vec![0xdead_beef_0123_4567, 1, 0x8000_0000_0000_0000];
    let expected: Vec<u8> = words.iter().flat_map(|w| w.to_be_bytes()).collect();
    assert_eq!(words_to_be_bytes(&words), expected);
}

#[test]
fn output_holds_hex_strings() {
    let out = Output::new(&vec![0x6a09e667, 0xbb67ae85], &vec![0xde, 0xad], &vec![]);
    assert_eq!(out.hash(), "000000006a09e66700000000bb67ae85");
    assert_eq!(out.transcript(), "dead");
    assert_eq!(out.advice(), "");
}

#[test]
fn output_from_parts_keeps_the_strings() {
    let out = Output::from_parts("00ff".to_string(), "ab".to_string(), "cd".to_string());
    assert_eq!(out.hash(), "00ff");
    assert_eq!(out.transcript(), "ab");
    assert_eq!(out.advice(), "cd");
}

#[test]
fn parse_decimal_reads_numerals() {
    assert_eq!(parse_decimal("0"), Ok(0));
    assert_eq!(parse_decimal("7"), Ok(7));
    assert_eq!(parse_decimal("24"), Ok(24));
    assert_eq!(parse_decimal("007"), Ok(7));
    assert_eq!(parse_decimal("1234567890"), Ok(1234567890));
    assert_eq!(parse_decimal("18446744073709551615"), Ok(u64::MAX));
    assert_eq!(parse_decimal("00018446744073709551615"), Ok(u64::MAX));
}

#[test]
fn parse_decimal_rejects_what_is_no_numeral() {
    assert_eq!(parse_decimal(""), Err(SessionError::InputShape));
    assert_eq!(parse_decimal("18446744073709551616"), Err(SessionError::InputShape));
    assert_eq!(parse_decimal("99999999999999999999"), Err(SessionError::InputShape));
    assert_eq!(parse_decimal("184467440737095516150"), Err(SessionError::InputShape));
    assert_eq!(parse_decimal("-1"), Err(SessionError::InputShape));
    assert_eq!(parse_decimal("+1"), Err(SessionError::InputShape));
    assert_eq!(parse_decimal("1 "), Err(SessionError::InputShape));
    assert_eq!(parse_decimal("0x10"), Err(SessionError::InputShape));
    assert_eq!(parse_decimal("1a"), Err(SessionError::InputShape));
    assert_eq!(parse_decimal("/"), Err(SessionError::InputShape));
    assert_eq!(parse_decimal(":"), Err(SessionError::InputShape));
    assert_eq!(parse_decimal("١٢"), Err(SessionError::InputShape));
}

#[test]
fn parse_lanes_wants_twenty_five_numerals() {
    let lanes: Vec<String> = (0..25).map(|i: u64| i.to_string()).collect();
    assert_eq!(parse_lanes(&lanes), Ok((0..25).collect::<Vec<u64>>()));
    let short: Vec<String> = (0..24).map(|i: u64| i.to_string()).collect();
    assert_eq!(parse_lanes(&short), Err(SessionError::InputShape));
    let long: Vec<String> = (0..26).map(|i: u64| i.to_string()).collect();
    assert_eq!(parse_lanes(&long), Err(SessionError::InputShape));
    assert_eq!(parse_lanes(&vec![]), Err(SessionError::InputShape));
    let mut bad = lanes.clone();
    bad[24] = "x".to_string();
    assert_eq!(parse_lanes(&bad), Err(SessionError::InputShape));
    let mut large = lanes.clone();
    large[0] = "18446744073709551615".to_string();
    assert_eq!(parse_lanes(&large).unwrap()[0], u64::MAX);
}

#[test]
fn decimal_string_writes_numerals() {
    assert_eq!(decimal_string(0), "0");
    assert_eq!(decimal_string(9), "9");
    assert_eq!(decimal_string(10), "10");
    assert_eq!(decimal_string(1075), "1075");
    assert_eq!(decimal_string(u64::MAX), "18446744073709551615");
    for w in [0u64, 1, 99, 100, 101, 4294967296, u64::MAX - 1] {
        assert_eq!(decimal_string(w), w.to_string());
        assert_eq!(parse_decimal(&decimal_string(w)), Ok(w));
    }
}
