use oracle_prices::answer::parse_raw_answer;
use oracle_prices::price::{decode_price, DecodedPrice};

fn be32(v: u128) -> Vec<u8> {
    let mut bytes = vec![0u8; 16];
    bytes.extend_from_slice(&v.to_be_bytes());
    bytes
}

fn decode(v: u128, decimals: u32) -> DecodedPrice {
    let raw = parse_raw_answer(&be32(v)).unwrap();
    decode_price(&raw, decimals)
}

fn to_f64(p: &DecodedPrice) -> f64 {
    let units = String::from_utf8(p.units.clone()).unwrap();
    let frac = String::from_utf8(p.frac.clone()).unwrap();
    let text = if frac.is_empty() {
        units
    } else {
        format!("{}.{}", units, frac)
    };
    text.parse::<f64>().unwrap()
}

#[test]
fn rescales_by_the_decimal_exponent() {
    let p = decode(123456789, 8);
    assert_eq!(p.units, b"1".to_vec());
    assert_eq!(p.frac, b"23456789".to_vec());
    assert!((to_f64(&p) - 1.23456789).abs() < 1e-9);
}

#[test]
fn eth_usd_scenario_yields_2500() {
    // A provider stub returning 250000000000 with 8 feed decimals
    // simulates an ETH/USD price of $2500.
    let p = decode(250000000000, 8);
    assert_eq!(p.units, b"2500".to_vec());
    assert_eq!(p.frac, b"00000000".to_vec());
    assert_eq!(to_f64(&p), 2500.0);
}

#[test]
fn zero_decodes_to_zero_for_any_exponent() {
    for decimals in [0u32, 1, 8, 30] {
        let p = decode(0, decimals);
        assert_eq!(p.units, b"0".to_vec());
        assert_eq!(p.frac, vec![b'0'; decimals as usize]);
        assert_eq!(to_f64(&p), 0.0);
    }
}

#[test]
fn zero_exponent_keeps_the_integer() {
    let p = decode(42, 0);
    assert_eq!(p.units, b"42".to_vec());
    assert_eq!(p.frac, Vec::<u8>::new());
    assert_eq!(to_f64(&p), 42.0);
}

#[test]
fn value_with_exactly_decimals_digits_has_zero_units() {
    let p = decode(99999999, 8);
    assert_eq!(p.units, b"0".to_vec());
    assert_eq!(p.frac, b"99999999".to_vec());
}

#[test]
fn matches_float_division_within_tolerance() {
    for (v, d) in [(1u128, 1u32), (5, 3), (123456, 3), (987654321, 4), (1000000, 6)] {
        let p = decode(v, d);
        let expected = v as f64 / 10f64.powi(d as i32);
        let got = to_f64(&p);
        assert!(
            (got - expected).abs() <= 1e-9 * expected.max(1.0),
            "{} / 10^{}: got {}, expected {}",
            v,
            d,
            got,
            expected
        );
    }
}
