use il2cpp_symbols::address::{decode_address, AddressError};

#[test]
fn decodes_prefixed_hex() {
    assert_eq!(decode_address("0x1000"), Ok(0x1000));
    assert_eq!(decode_address("0x0"), Ok(0));
    assert_eq!(decode_address("0xdeadBEEF"), Ok(0xdead_beef));
}

#[test]
fn decodes_largest_address() {
    assert_eq!(decode_address("0xffffffffffffffff"), Ok(u64::MAX));
    assert_eq!(decode_address("0x00000000000000000001"), Ok(1));
}

#[test]
fn rejects_value_past_64_bits() {
    assert_eq!(decode_address("0x10000000000000000"), Err(AddressError::Overflow));
}

#[test]
fn rejects_missing_prefix() {
    assert_eq!(decode_address("1000"), Err(AddressError::MissingPrefix));
    assert_eq!(decode_address("0X1000"), Err(AddressError::MissingPrefix));
    assert_eq!(decode_address(""), Err(AddressError::MissingPrefix));
    assert_eq!(decode_address("0"), Err(AddressError::MissingPrefix));
}

#[test]
fn rejects_non_hex_digits() {
    assert_eq!(decode_address("0x"), Err(AddressError::InvalidDigit));
    assert_eq!(decode_address("0x12g4"), Err(AddressError::InvalidDigit));
    assert_eq!(decode_address("0x+10"), Err(AddressError::InvalidDigit));
    assert_eq!(decode_address("0x10 "), Err(AddressError::InvalidDigit));
}

#[test]
fn invalid_digit_wins_over_overflow() {
    assert_eq!(
        decode_address("0x1000000000000000000z"),
        Err(AddressError::InvalidDigit)
    );
}
