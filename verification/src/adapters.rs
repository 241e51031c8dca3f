//! One extraction rule per price-feed provider: from that provider's
//! parsed response shape to the normalized fixed-point USD price.
//!
//! Every adapter is total over its input and decides exactly: a missing
//! row, field or element is a parse error; an unparsable or unrepresentable
//! number is a numeric error; nothing panics and nothing is defaulted.

use vstd::prelude::*;

verus! {

use vstd::utf8::encode_utf8;
use crate::decimal::{Decimal, parse_decimal, try_normalize, parseable, normalized_of};
use crate::errors::OracleError;
use crate::quotes::{CoinMarketCap, Coingecko, Cryptorank, KucoinPrice, CoinWatch, Point};
use crate::splitbytes::{split_bytes, split_spec};

/// The candle response has the rows and columns the extraction needs:
/// at least two newline-separated rows, and at least five comma-separated
/// columns in the second-to-last row.
pub open spec fn gateio_shape_ok(body: Seq<u8>) -> bool {
    let rows = split_spec(body, 10);
    rows.len() >= 2 && split_spec(rows[rows.len() - 2], 44).len() >= 5
}

/// The close-price column of the candle response: column four of the
/// second-to-last row.
pub open spec fn gateio_field(body: Seq<u8>) -> Seq<u8> {
    let rows = split_spec(body, 10);
    split_spec(rows[rows.len() - 2], 44)[4]
}

/// Extracts the close price from the exchange's newline/comma-delimited
/// candle response: second-to-last row, column four, parsed as a decimal
/// and normalized.
pub fn get_gateio_price(body: &[u8]) -> (r: Result<u64, OracleError>)
    ensures
        match r {
            Ok(v) => gateio_shape_ok(body@) && parseable(gateio_field(body@)) && normalized_of(
                gateio_field(body@),
            ) <= u64::MAX && v == normalized_of(gateio_field(body@)),
            Err(e) => {
                &&& (e is Parse <==> !gateio_shape_ok(body@))
                &&& (e is Numeric <==> gateio_shape_ok(body@) && (!parseable(gateio_field(body@))
                    || normalized_of(gateio_field(body@)) > u64::MAX))
                &&& (e is Parse || e is Numeric)
            },
        },
{
    let rows = split_bytes(body, 10);
    if rows.len() < 2 {
        return Err(OracleError::Parse);
    }
    let row = &rows[rows.len() - 2];
    proof {
        assert(row@ == split_spec(body@, 10)[rows@.len() - 2]);
    }
    let cols = split_bytes(row.as_slice(), 44);
    if cols.len() < 5 {
        return Err(OracleError::Parse);
    }
    let field = &cols[4];
    proof {
        assert(field@ == gateio_field(body@));
    }
    match parse_decimal(field.as_slice()) {
        Ok(d) => match try_normalize(d) {
            Some(v) => Ok(v),
            None => Err(OracleError::Numeric),
        },
        Err(_) => Err(OracleError::Numeric),
    }
}

/// `i` points at the entry holding the greatest timestamp key, and at the
/// first such entry where the greatest key repeats.
pub open spec fn first_max_key(entries: Seq<(u128, Point)>, i: int) -> bool {
    &&& 0 <= i < entries.len()
    &&& forall|j: int| 0 <= j < entries.len() ==> (#[trigger] entries[j].0) <= entries[i].0
    &&& forall|j: int| 0 <= j < i ==> (#[trigger] entries[j].0) < entries[i].0
}

/// Extracts the latest price from the chart aggregator's response: the
/// point with the greatest timestamp key, first value. An empty chart, or
/// a point with no values, is a parse error.
pub fn get_coinmarketcap_price(q: &CoinMarketCap) -> (r: Result<u64, OracleError>)
    ensures
        q.data.points@.len() == 0 ==> (r matches Err(e) && e is Parse),
        q.data.points@.len() > 0 ==> exists|i: int|
            {
                &&& #[trigger] first_max_key(q.data.points@, i)
                &&& {
                    let vals = q.data.points@[i].1.v@;
                    match r {
                        Ok(v) => vals.len() > 0 && vals[0].scaled() <= u64::MAX && v
                            == vals[0].scaled(),
                        Err(e) => {
                            &&& (e is Parse <==> vals.len() == 0)
                            &&& (e is Numeric <==> vals.len() > 0 && vals[0].scaled() > u64::MAX)
                            &&& (e is Parse || e is Numeric)
                        },
                    }
                }
            },
{
    let entries = &q.data.points;
    let n = entries.len();
    if n == 0 {
        return Err(OracleError::Parse);
    }
    let mut best: usize = 0;
    let mut idx: usize = 1;
    while idx < n
        invariant
            1 <= idx <= n,
            best < idx,
            n == entries@.len(),
            forall|j: int| 0 <= j < idx ==> (#[trigger] entries@[j].0) <= entries@[best as int].0,
            forall|j: int| 0 <= j < best ==> (#[trigger] entries@[j].0) < entries@[best as int].0,
        decreases n - idx,
    {
        if entries[idx].0 > entries[best].0 {
            best = idx;
        }
        idx = idx + 1;
    }
    proof {
        assert(first_max_key(entries@, best as int));
    }
    let point = &entries[best].1;
    if point.v.len() == 0 {
        return Err(OracleError::Parse);
    }
    match try_normalize(point.v[0]) {
        Some(v) => Ok(v),
        None => Err(OracleError::Numeric),
    }
}

/// The chart has a last `[timestamp, price]` pair with a price entry.
pub open spec fn coingecko_shape_ok(stats: Seq<Vec<Decimal>>) -> bool {
    stats.len() > 0 && stats.last()@.len() >= 2
}

/// The price of the last pair of the chart.
pub open spec fn coingecko_value(stats: Seq<Vec<Decimal>>) -> int {
    stats.last()@[1].scaled()
}

/// Extracts the latest price from the 24-hour USD chart: the last element
/// of the stats sequence, price field. An empty sequence, or a last
/// element with no price field, is a parse error.
pub fn get_coingecko_price(q: &Coingecko) -> (r: Result<u64, OracleError>)
    ensures
        match r {
            Ok(v) => coingecko_shape_ok(q.stats@) && coingecko_value(q.stats@) <= u64::MAX && v
                == coingecko_value(q.stats@),
            Err(e) => {
                &&& (e is Parse <==> !coingecko_shape_ok(q.stats@))
                &&& (e is Numeric <==> coingecko_shape_ok(q.stats@) && coingecko_value(q.stats@)
                    > u64::MAX)
                &&& (e is Parse || e is Numeric)
            },
        },
{
    let n = q.stats.len();
    if n == 0 {
        return Err(OracleError::Parse);
    }
    let row = &q.stats[n - 1];
    if row.len() < 2 {
        return Err(OracleError::Parse);
    }
    match try_normalize(row[1]) {
        Some(v) => Ok(v),
        None => Err(OracleError::Numeric),
    }
}

/// Normalizes the USD price of the ranking-site document.
pub fn get_cryptorank_price(q: &Cryptorank) -> (r: Result<u64, OracleError>)
    ensures
        match r {
            Ok(v) => q.data.price.usd.scaled() <= u64::MAX && v == q.data.price.usd.scaled(),
            Err(e) => e is Numeric && q.data.price.usd.scaled() > u64::MAX,
        },
{
    match try_normalize(q.data.price.usd) {
        Some(v) => Ok(v),
        None => Err(OracleError::Numeric),
    }
}

/// Extracts the traded price from the order-book snapshot: the `price`
/// string of the data, parsed as a decimal and normalized.
pub fn get_kucoin_price(q: &KucoinPrice) -> (r: Result<u64, OracleError>)
    ensures
        match r {
            Ok(v) => parseable(encode_utf8(q.data.price@)) && normalized_of(
                encode_utf8(q.data.price@),
            ) <= u64::MAX && v == normalized_of(encode_utf8(q.data.price@)),
            Err(e) => e is Numeric && (!parseable(encode_utf8(q.data.price@)) || normalized_of(
                encode_utf8(q.data.price@),
            ) > u64::MAX),
        },
{
    let b = q.data.price.as_str().as_bytes();
    match parse_decimal(b) {
        Ok(d) => match try_normalize(d) {
            Some(v) => Ok(v),
            None => Err(OracleError::Numeric),
        },
        Err(_) => Err(OracleError::Numeric),
    }
}

/// Extracts the latest rate from the chronological historical range: the
/// last sample's rate. An empty range is a parse error.
pub fn get_livecoinwatch_price(q: &CoinWatch) -> (r: Result<u64, OracleError>)
    ensures
        match r {
            Ok(v) => q.data@.len() > 0 && q.data@.last().rate.scaled() <= u64::MAX && v
                == q.data@.last().rate.scaled(),
            Err(e) => {
                &&& (e is Parse <==> q.data@.len() == 0)
                &&& (e is Numeric <==> q.data@.len() > 0 && q.data@.last().rate.scaled()
                    > u64::MAX)
                &&& (e is Parse || e is Numeric)
            },
        },
{
    let n = q.data.len();
    if n == 0 {
        return Err(OracleError::Parse);
    }
    match try_normalize(q.data[n - 1].rate) {
        Some(v) => Ok(v),
        None => Err(OracleError::Numeric),
    }
}

/// The graph has a first row with a first numeric field.
pub open spec fn coin360_shape_ok(graph: Seq<Vec<Decimal>>) -> bool {
    graph.len() > 0 && graph[0]@.len() > 0
}

/// The first numeric field of the first row of the graph.
pub open spec fn coin360_value(graph: Seq<Vec<Decimal>>) -> int {
    graph[0]@[0].scaled()
}

/// Extracts the price from the heatmap site's nested-array graph: first
/// row, first field. A missing row or field is a parse error.
pub fn get_coin360_price(graph: &Vec<Vec<Decimal>>) -> (r: Result<u64, OracleError>)
    ensures
        match r {
            Ok(v) => coin360_shape_ok(graph@) && coin360_value(graph@) <= u64::MAX && v
                == coin360_value(graph@),
            Err(e) => {
                &&& (e is Parse <==> !coin360_shape_ok(graph@))
                &&& (e is Numeric <==> coin360_shape_ok(graph@) && coin360_value(graph@)
                    > u64::MAX)
                &&& (e is Parse || e is Numeric)
            },
        },
{
    if graph.len() == 0 {
        return Err(OracleError::Parse);
    }
    let row = &graph[0];
    if row.len() == 0 {
        return Err(OracleError::Parse);
    }
    match try_normalize(row[0]) {
        Some(v) => Ok(v),
        None => Err(OracleError::Numeric),
    }
}

} // verus!
