use oracle_prices::errors::PriceError;
use oracle_prices::report::{build_report, AssetInfo};

fn be32(v: u128) -> Vec<u8> {
    let mut bytes = vec![0u8; 16];
    bytes.extend_from_slice(&v.to_be_bytes());
    bytes
}

fn asset(address: &str, name: &str, pair: &str) -> AssetInfo {
    AssetInfo {
        address: address.to_string(),
        asset_name: name.to_string(),
        pair: pair.to_string(),
        asset_type: "Crypto".to_string(),
        market_hours: "24/7".to_string(),
    }
}

#[test]
fn builds_one_row_per_asset_in_order() {
    let assets = vec![
        asset("0x5f4eC3Df9cbd43714FE2740f5E3616155c5b8419", "Ethereum", "ETH/USD"),
        asset("0xF4030086522a5bEEa4988F8cA5B36dbC97BeE88c", "Bitcoin", "BTC/USD"),
    ];
    let responses = vec![be32(250000000000), be32(6000000000000)];
    let rows = build_report(&assets, &responses, 8).unwrap();
    assert_eq!(rows.len(), 2);
    assert_eq!(rows[0].asset_name, "Ethereum");
    assert_eq!(rows[0].pair, "ETH/USD");
    assert_eq!(rows[0].price.units, b"2500".to_vec());
    assert_eq!(rows[0].price.frac, b"00000000".to_vec());
    assert_eq!(rows[1].asset_name, "Bitcoin");
    assert_eq!(rows[1].price.units, b"60000".to_vec());
    assert_eq!(rows[1].asset_type, "Crypto");
    assert_eq!(rows[1].market_hours, "24/7");
}

#[test]
fn fails_fast_on_the_second_asset_address() {
    // The first asset is fine; the second has an unparsable address. The
    // whole report fails with AddressParse and produces no rows at all.
    let assets = vec![
        asset("0x5f4eC3Df9cbd43714FE2740f5E3616155c5b8419", "Ethereum", "ETH/USD"),
        asset("0xnot-an-address", "Broken", "N/A"),
    ];
    let responses = vec![be32(250000000000), be32(1)];
    let r = build_report(&assets, &responses, 8);
    assert_eq!(r.unwrap_err(), PriceError::AddressParse);
}

#[test]
fn fails_fast_on_an_overflowing_response() {
    let mut too_big = vec![0xffu8];
    too_big.extend_from_slice(&be32(1));
    let assets = vec![
        asset("0x5f4eC3Df9cbd43714FE2740f5E3616155c5b8419", "Ethereum", "ETH/USD"),
    ];
    let responses = vec![too_big];
    assert_eq!(build_report(&assets, &responses, 8).unwrap_err(), PriceError::Decode);
}

#[test]
fn report_is_identical_on_identical_inputs() {
    let assets = vec![
        asset("0x5f4eC3Df9cbd43714FE2740f5E3616155c5b8419", "Ethereum", "ETH/USD"),
        asset("0xF4030086522a5bEEa4988F8cA5B36dbC97BeE88c", "Bitcoin", "BTC/USD"),
    ];
    let responses = vec![be32(250000000000), be32(6000000000000)];
    let first = build_report(&assets, &responses, 8).unwrap();
    let second = build_report(&assets, &responses, 8).unwrap();
    assert_eq!(first.len(), second.len());
    for (a, b) in first.iter().zip(second.iter()) {
        assert_eq!(a.asset_name, b.asset_name);
        assert_eq!(a.pair, b.pair);
        assert_eq!(a.asset_type, b.asset_type);
        assert_eq!(a.market_hours, b.market_hours);
        assert_eq!(a.price.units, b.price.units);
        assert_eq!(a.price.frac, b.price.frac);
    }
}
