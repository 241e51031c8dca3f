//! The response shapes of the price-feed providers, as the library reads
//! them: every numeric price is an exact [`Decimal`], never a float. The
//! surrounding binary decodes each provider's JSON into these shapes and
//! hands them in.

use vstd::prelude::*;
use crate::decimal::Decimal;

verus! {

/// Chart response of the aggregator keyed by asset id: one day of points.
pub struct CoinMarketCap {
    pub data: CoinMarketCapData,
}

/// The points of the chart: timestamp keys mapped to sampled values.
/// The key order carries no meaning; keys are expected to be distinct.
pub struct CoinMarketCapData {
    pub points: Vec<(u128, Point)>,
}

/// One sampled chart point: a vector of values whose first entry is the
/// USD price.
pub struct Point {
    pub v: Vec<Decimal>,
}

/// The 24-hour USD chart of the chart-JSON aggregator: a sequence of
/// `[timestamp, price]` pairs.
pub struct Coingecko {
    pub stats: Vec<Vec<Decimal>>,
}

/// Response of the ranking site, keyed by asset slug.
pub struct Cryptorank {
    pub data: CryptorankData,
}

/// The priced part of the ranking-site response.
pub struct CryptorankData {
    pub price: Price,
}

/// A price quoted in three currencies; the relay reads the USD one.
pub struct Price {
    pub btc: Decimal,
    pub eth: Decimal,
    pub usd: Decimal,
}

/// Level-1 order-book snapshot of the exchange, price quoted as a string.
pub struct KucoinPrice {
    pub code: String,
    pub data: KucoinData,
}

/// The body of the order-book snapshot. The numeric fields stay strings,
/// as the provider sends them; only `price` is read.
pub struct KucoinData {
    pub time: i64,
    pub sequence: String,
    pub price: String,
    pub size: String,
    pub best_bid: String,
    pub best_bid_size: String,
    pub best_ask: String,
    pub best_ask_size: String,
}

/// Historical-range response of the aggregator: chronological rate data.
pub struct CoinWatch {
    pub success: bool,
    pub coin: String,
    pub data: Vec<Datum>,
}

/// One historical sample; the relay reads the `rate`.
pub struct Datum {
    pub date: i64,
    pub rate: Decimal,
    pub volume: i64,
    pub cap: i64,
}

/// Reply of the task-coordination service to a claim or completion call.
pub struct RaceAndCompleteRes {
    pub success: bool,
    pub error: Option<String>,
}

/// Reply of the task-coordination service to a completion report.
pub struct CompleteRes {
    pub success: bool,
    pub error: Option<String>,
}

} // verus!
