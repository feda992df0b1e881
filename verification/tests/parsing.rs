use rom_reconcile::parse::{md5_digest, parse_size, ParseError};

#[test]
fn parse_size_exact_values() {
    assert_eq!(parse_size("0"), Ok(0));
    assert_eq!(parse_size("100"), Ok(100));
    assert_eq!(parse_size("262144"), Ok(262144));
    assert_eq!(parse_size("18446744073709551615"), Ok(u64::MAX));
}

#[test]
fn parse_size_empty() {
    assert_eq!(parse_size(""), Err(ParseError::EmptySize));
}

#[test]
fn parse_size_bad_digits() {
    assert_eq!(parse_size("12a"), Err(ParseError::BadSizeDigit));
    assert_eq!(parse_size("-5"), Err(ParseError::BadSizeDigit));
    assert_eq!(parse_size("+5"), Err(ParseError::BadSizeDigit));
    assert_eq!(parse_size(" 5"), Err(ParseError::BadSizeDigit));
}

#[test]
fn parse_size_too_large() {
    assert_eq!(parse_size("18446744073709551616"), Err(ParseError::SizeTooLarge));
    assert_eq!(parse_size("99999999999999999999999999"), Err(ParseError::SizeTooLarge));
}

#[test]
fn md5_digest_exact_value() {
    assert_eq!(
        md5_digest("000102030405060708090a0b0c0d0e0f"),
        Ok(0x000102030405060708090a0b0c0d0e0fu128)
    );
    assert_eq!(
        md5_digest("ffffffffffffffffffffffffffffffff"),
        Ok(u128::MAX)
    );
}

#[test]
fn md5_digest_agrees_with_hex_crate() {
    let s = "d41d8cd98f00b204e9800998ecf8427e";
    let bytes = hex::decode(s).unwrap();
    let mut expect: u128 = 0;
    for b in bytes {
        expect = (expect << 8) | b as u128;
    }
    assert_eq!(md5_digest(s), Ok(expect));
}

#[test]
fn md5_digest_either_case() {
    assert_eq!(
        md5_digest("D41D8CD98F00B204E9800998ECF8427E"),
        md5_digest("d41d8cd98f00b204e9800998ecf8427e")
    );
}

#[test]
fn md5_digest_bad_length() {
    assert_eq!(md5_digest(""), Err(ParseError::BadDigestLength));
    assert_eq!(md5_digest("abc"), Err(ParseError::BadDigestLength));
    assert_eq!(
        md5_digest("d41d8cd98f00b204e9800998ecf8427e0"),
        Err(ParseError::BadDigestLength)
    );
}

#[test]
fn md5_digest_bad_digit() {
    assert_eq!(
        md5_digest("g41d8cd98f00b204e9800998ecf8427e"),
        Err(ParseError::BadDigestDigit)
    );
}
