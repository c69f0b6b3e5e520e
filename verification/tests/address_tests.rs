use oracle_prices::address::parse_address;
use oracle_prices::errors::PriceError;

const FEED_BYTES: [u8; 20] = [
    0x5f, 0x4e, 0xc3, 0xdf, 0x9c, 0xbd, 0x43, 0x71, 0x4f, 0xe2, 0x74, 0x0f, 0x5e, 0x36, 0x16,
    0x15, 0x5c, 0x5b, 0x84, 0x19,
];

#[test]
fn parses_prefixed_address() {
    let a = parse_address("0x5f4eC3Df9cbd43714FE2740f5E3616155c5b8419").unwrap();
    assert_eq!(a.octets().as_slice(), &FEED_BYTES);
}

#[test]
fn parses_unprefixed_address_to_same_bytes() {
    let with_prefix = parse_address("0x5f4eC3Df9cbd43714FE2740f5E3616155c5b8419").unwrap();
    let without_prefix = parse_address("5f4eC3Df9cbd43714FE2740f5E3616155c5b8419").unwrap();
    assert_eq!(with_prefix.octets(), without_prefix.octets());
}

#[test]
fn parses_mixed_and_upper_case() {
    let lower = parse_address("0x5f4ec3df9cbd43714fe2740f5e3616155c5b8419").unwrap();
    let upper = parse_address("0x5F4EC3DF9CBD43714FE2740F5E3616155C5B8419").unwrap();
    assert_eq!(lower.octets().as_slice(), &FEED_BYTES);
    assert_eq!(upper.octets().as_slice(), &FEED_BYTES);
}

#[test]
fn rejects_short_address() {
    let r = parse_address("0x5f4eC3Df9cbd43714FE2740f5E3616155c5b841");
    assert_eq!(r.unwrap_err(), PriceError::AddressParse);
}

#[test]
fn rejects_long_address() {
    let r = parse_address("0x5f4eC3Df9cbd43714FE2740f5E3616155c5b84190");
    assert_eq!(r.unwrap_err(), PriceError::AddressParse);
}

#[test]
fn rejects_non_hex_character() {
    let r = parse_address("0x5g4eC3Df9cbd43714FE2740f5E3616155c5b8419");
    assert_eq!(r.unwrap_err(), PriceError::AddressParse);
}

#[test]
fn rejects_empty_string() {
    assert_eq!(parse_address("").unwrap_err(), PriceError::AddressParse);
}
