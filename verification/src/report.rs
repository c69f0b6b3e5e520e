//! Assembling a price report: one row per configured asset, in input
//! order, aborting on the first failure.
//!
//! The network round trip itself happens outside this crate; the report
//! builder takes each asset's raw call response as bytes and does
//! everything else: address validation, answer decoding, rescaling, and
//! the fail-fast policy (an error for any asset aborts the whole report,
//! so a partial table is never produced).

use vstd::prelude::*;
use vstd::string::StringSliceAdditionalSpecFns;
use vstd::utf8::encode_utf8;
use crate::address::{addr_digits, parse_address, valid_addr_digits};
use crate::answer::{be_value, fits_256, parse_raw_answer};
use crate::errors::PriceError;
use crate::price::{decode_price, DecodedPrice};

verus! {

/// One tracked asset, as configured: a textual contract address and the
/// display strings that accompany its price in the report.
#[derive(Clone, Debug)]
pub struct AssetInfo {
    /// Feed contract address, 40 hex digits with an optional `0x` prefix.
    pub address: String,
    /// Display name of the asset.
    pub asset_name: String,
    /// Display name of the price pair, e.g. "ETH/USD".
    pub pair: String,
    /// Display category of the asset.
    pub asset_type: String,
    /// Display string for the asset's market hours.
    pub market_hours: String,
}

/// One finished report row: the asset's display strings and its decoded
/// price.
#[derive(Clone, Debug)]
pub struct PriceRow {
    /// Display name of the asset.
    pub asset_name: String,
    /// The decoded price, exact.
    pub price: DecodedPrice,
    /// Display name of the price pair.
    pub pair: String,
    /// Display category of the asset.
    pub asset_type: String,
    /// Display string for the asset's market hours.
    pub market_hours: String,
}

/// The asset's address text is valid and its call response fits in 256
/// bits: exactly the conditions under which its row can be built.
pub open spec fn asset_ok(a: AssetInfo, resp: Seq<u8>) -> bool {
    &&& valid_addr_digits(addr_digits(encode_utf8(a.address@)))
    &&& fits_256(resp)
}

/// The error a failing asset produces: an invalid address is reported
/// before the response is looked at.
pub open spec fn asset_error(a: AssetInfo, resp: Seq<u8>) -> PriceError {
    if !valid_addr_digits(addr_digits(encode_utf8(a.address@))) {
        PriceError::AddressParse
    } else {
        PriceError::Decode
    }
}

/// The row carries the asset's display strings unchanged and the exact
/// decoded price of its response.
pub open spec fn row_matches(row: PriceRow, a: AssetInfo, resp: Seq<u8>, d: nat) -> bool {
    &&& row.asset_name@ == a.asset_name@
    &&& row.pair@ == a.pair@
    &&& row.asset_type@ == a.asset_type@
    &&& row.market_hours@ == a.market_hours@
    &&& row.price.represents(be_value(resp), d)
    &&& row.price.wf(d)
}

/// Builds the report: for each asset, in input order, parse its address,
/// decode its raw call response, and rescale by `10^decimals`. The first
/// failure aborts the whole report with that asset's error; on success
/// there is exactly one row per asset, in order.
pub fn build_report(assets: &Vec<AssetInfo>, responses: &Vec<Vec<u8>>, decimals: u32) -> (r:
    Result<Vec<PriceRow>, PriceError>)
    requires
        assets@.len() == responses@.len(),
    ensures
        r is Ok <==> (forall|i: int|
            0 <= i < assets@.len() ==> #[trigger] asset_ok(assets@[i], responses@[i]@)),
        r matches Ok(rows) ==> rows@.len() == assets@.len() && (forall|i: int|
            0 <= i < assets@.len() ==> #[trigger] row_matches(
                rows@[i],
                assets@[i],
                responses@[i]@,
                decimals as nat,
            )),
        r matches Err(e) ==> exists|i: int|
            0 <= i < assets@.len() && !#[trigger] asset_ok(assets@[i], responses@[i]@) && (
            forall|j: int| 0 <= j < i ==> #[trigger] asset_ok(assets@[j], responses@[j]@))
                && e == asset_error(assets@[i], responses@[i]@),
{
    let n = assets.len();
    let mut rows: Vec<PriceRow> = Vec::new();
    let mut i: usize = 0;
    while i < n
        invariant
            0 <= i <= n,
            n == assets@.len(),
            assets@.len() == responses@.len(),
            rows@.len() == i,
            forall|j: int| 0 <= j < i ==> #[trigger] asset_ok(assets@[j], responses@[j]@),
            forall|j: int|
                0 <= j < i ==> #[trigger] row_matches(
                    rows@[j],
                    assets@[j],
                    responses@[j]@,
                    decimals as nat,
                ),
        decreases n - i,
    {
        let asset = &assets[i];
        let parsed = parse_address(asset.address.as_str());
        let _addr = match parsed {
            Ok(a) => a,
            Err(e) => {
                proof {
                    assert(!asset_ok(assets@[i as int], responses@[i as int]@));
                }
                return Err(e);
            },
        };
        let raw = match parse_raw_answer(&responses[i]) {
            Ok(raw) => raw,
            Err(e) => {
                proof {
                    assert(!asset_ok(assets@[i as int], responses@[i as int]@));
                }
                return Err(e);
            },
        };
        let price = decode_price(&raw, decimals);
        let row = PriceRow {
            asset_name: asset.asset_name.clone(),
            price,
            pair: asset.pair.clone(),
            asset_type: asset.asset_type.clone(),
            market_hours: asset.market_hours.clone(),
        };
        rows.push(row);
        i = i + 1;
    }
    Ok(rows)
}

/// Two rows show the same thing: same display strings, same price
/// digits.
pub open spec fn row_view_eq(r1: PriceRow, r2: PriceRow) -> bool {
    &&& r1.asset_name@ == r2.asset_name@
    &&& r1.pair@ == r2.pair@
    &&& r1.asset_type@ == r2.asset_type@
    &&& r1.market_hours@ == r2.market_hours@
    &&& r1.price.units@ == r2.price.units@
    &&& r1.price.frac@ == r2.price.frac@
}

/// Law: report building is a function of its inputs. Two reports built
/// from the same assets and the same raw responses are row-for-row
/// identical: same display strings, same price digits.
pub proof fn lemma_report_deterministic(
    rows1: Seq<PriceRow>,
    rows2: Seq<PriceRow>,
    assets: Seq<AssetInfo>,
    responses: Seq<Seq<u8>>,
    d: nat,
)
    requires
        rows1.len() == assets.len(),
        rows2.len() == assets.len(),
        forall|i: int|
            0 <= i < assets.len() ==> #[trigger] row_matches(rows1[i], assets[i], responses[i], d),
        forall|i: int|
            0 <= i < assets.len() ==> #[trigger] row_matches(rows2[i], assets[i], responses[i], d),
    ensures
        forall|i: int| 0 <= i < assets.len() ==> #[trigger] row_view_eq(rows1[i], rows2[i]),
{
    assert forall|i: int| 0 <= i < assets.len() implies #[trigger] row_view_eq(
        rows1[i],
        rows2[i],
    ) by {
        assert(row_matches(rows1[i], assets[i], responses[i], d));
        assert(row_matches(rows2[i], assets[i], responses[i], d));
    }
}

} // verus!
