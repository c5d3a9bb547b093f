use lwk_wollet::encoding::{
    decimal_len, decimal_string, decode_hex_bytes, hash_to_hex, parse_digit_bytes, parse_hash,
    to_hex,
};
use lwk_wollet::{HexErrorKind, IntErrorKind};

#[test]
fn decimal_strings() {
    assert_eq!(decimal_string(0), "0");
    assert_eq!(decimal_string(7), "7");
    assert_eq!(decimal_string(10), "10");
    assert_eq!(decimal_string(usize::MAX), usize::MAX.to_string());
    assert_eq!(decimal_len(0), 1);
    assert_eq!(decimal_len(12345), 5);
}

#[test]
fn digit_parsing_follows_std() {
    for text in ["0", "42", "007", "", "1a", "a1", " 1", "18446744073709551615"] {
        let ours = parse_digit_bytes(text.as_bytes(), 0);
        let std = if text.is_empty() { Ok(0) } else { text.parse::<usize>() };
        assert_eq!(ours.ok(), std.clone().ok(), "on {:?}", text);
    }
    assert_eq!(parse_digit_bytes(b"", 0), Ok(0));
    assert_eq!(parse_digit_bytes(b"+7", 0), Err(IntErrorKind::InvalidDigit));
    assert_eq!(parse_digit_bytes(b"-7", 0), Err(IntErrorKind::InvalidDigit));
    assert_eq!(parse_digit_bytes(b"x12", 1), Ok(12));
    assert_eq!(parse_digit_bytes(b"12x", 0), Err(IntErrorKind::InvalidDigit));
    let too_big = format!("{}0", usize::MAX);
    assert_eq!(parse_digit_bytes(too_big.as_bytes(), 0), Err(IntErrorKind::PosOverflow));
    assert_eq!(parse_digit_bytes(usize::MAX.to_string().as_bytes(), 0), Ok(usize::MAX));
}

#[test]
fn hex_encoding_and_decoding() {
    assert_eq!(to_hex(&[0x00, 0x0f, 0xa5, 0xff]), "000fa5ff");
    assert_eq!(to_hex(&[]), "");
    assert_eq!(decode_hex_bytes(b"000fA5ff").unwrap(), vec![0x00, 0x0f, 0xa5, 0xff]);
    assert_eq!(decode_hex_bytes(b"abc"), Err(HexErrorKind::OddLength));
    assert_eq!(decode_hex_bytes(b"zz"), Err(HexErrorKind::InvalidChar));
    let bytes: Vec<u8> = (0u8..=255).collect();
    assert_eq!(decode_hex_bytes(to_hex(&bytes).as_bytes()).unwrap(), bytes);
}

#[test]
fn hashes_are_shown_backwards() {
    let mut h = [0u8; 32];
    for (i, b) in h.iter_mut().enumerate() {
        *b = i as u8;
    }
    let shown = hash_to_hex(&h);
    assert_eq!(
        shown,
        "1f1e1d1c1b1a191817161514131211100f0e0d0c0b0a09080706050403020100"
    );
    assert_eq!(parse_hash(shown.as_bytes()).unwrap(), h);
    assert_eq!(parse_hash(shown.to_uppercase().as_bytes()).unwrap(), h);
    assert_eq!(parse_hash(b"00"), Err(HexErrorKind::InvalidLength));
    let mut bad = shown.clone().into_bytes();
    bad[5] = b'g';
    assert_eq!(parse_hash(&bad), Err(HexErrorKind::InvalidChar));
}
