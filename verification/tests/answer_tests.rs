use oracle_prices::answer::{latest_answer_decimal, parse_raw_answer};
use oracle_prices::errors::PriceError;

fn be32(v: u128) -> Vec<u8> {
    let mut bytes = vec![0u8; 16];
    bytes.extend_from_slice(&v.to_be_bytes());
    bytes
}

#[test]
fn decodes_a_full_32_byte_response() {
    let raw = parse_raw_answer(&be32(123456789)).unwrap();
    assert_eq!(latest_answer_decimal(&raw), b"123456789".to_vec());
}

#[test]
fn accepts_a_short_response() {
    let raw = parse_raw_answer(&vec![0x01, 0x00]).unwrap();
    assert_eq!(latest_answer_decimal(&raw), b"256".to_vec());
}

#[test]
fn accepts_an_empty_response_as_zero() {
    let raw = parse_raw_answer(&Vec::new()).unwrap();
    assert_eq!(latest_answer_decimal(&raw), b"0".to_vec());
}

#[test]
fn accepts_an_oversized_response_with_zero_padding() {
    let mut response = vec![0u8; 3];
    response.extend_from_slice(&be32(77));
    let raw = parse_raw_answer(&response).unwrap();
    assert_eq!(latest_answer_decimal(&raw), b"77".to_vec());
}

#[test]
fn rejects_an_oversized_response_with_a_high_byte() {
    let mut response = vec![0u8, 9u8, 0u8];
    response.extend_from_slice(&be32(77));
    assert_eq!(parse_raw_answer(&response).unwrap_err(), PriceError::Decode);
}

#[test]
fn decodes_the_largest_answer() {
    let raw = parse_raw_answer(&vec![0xffu8; 32]).unwrap();
    assert_eq!(
        latest_answer_decimal(&raw),
        b"115792089237316195423570985008687907853269984665640564039457584007913129639935"
            .to_vec()
    );
}

#[test]
fn decodes_a_value_beyond_u128() {
    // 2^128: one bit just above the u128 range.
    let mut bytes = vec![0u8; 32];
    bytes[15] = 1;
    let raw = parse_raw_answer(&bytes).unwrap();
    assert_eq!(
        latest_answer_decimal(&raw),
        b"340282366920938463463374607431768211456".to_vec()
    );
}
