//! Provider selection: a coarse time-keyed round robin over the seven
//! price-feed providers.

use vstd::prelude::*;

verus! {

/// The seven third-party price-feed providers.
#[derive(Clone, Copy, Debug, PartialEq, Eq, Structural)]
pub enum Provider {
    /// Exchange with a candle API, queried over a 24-hour window.
    GateIo,
    /// Market-data aggregator queried by asset id for a 1-day chart.
    CoinMarketCap,
    /// Aggregator serving a static 24-hour USD chart JSON.
    Coingecko,
    /// Ranking site serving a single document keyed by asset slug.
    Cryptorank,
    /// Exchange serving a level-1 order-book snapshot.
    Kucoin,
    /// Aggregator serving a chronological historical range.
    LiveCoinWatch,
    /// Heatmap site serving a time-ranged graph.
    Coin360,
}

/// The fixed mapping from a time residue modulo seven to a provider.
/// Residue 2 is reserved: it falls back to the default provider, as does
/// anything outside the table.
pub open spec fn select_spec(rem: int) -> Provider {
    if rem == 0 {
        Provider::LiveCoinWatch
    } else if rem == 1 {
        Provider::Kucoin
    } else if rem == 3 {
        Provider::Cryptorank
    } else if rem == 4 {
        Provider::CoinMarketCap
    } else if rem == 5 {
        Provider::GateIo
    } else if rem == 6 {
        Provider::Coin360
    } else {
        Provider::GateIo
    }
}

/// Chooses the provider for a run from the current epoch milliseconds:
/// the fixed table applied to `now_millis` modulo seven.
pub fn select(now_millis: u128) -> (p: Provider)
    ensures
        p == select_spec(now_millis as int % 7),
{
    let rem = (now_millis % 7) as u8;
    match rem {
        0 => Provider::LiveCoinWatch,
        1 => Provider::Kucoin,
        3 => Provider::Cryptorank,
        4 => Provider::CoinMarketCap,
        5 => Provider::GateIo,
        6 => Provider::Coin360,
        _ => Provider::GateIo,
    }
}

/// Selection depends on the time only through its residue modulo seven:
/// two instants with equal residues select the same provider.
pub proof fn lemma_select_time_invariant(t1: u128, t2: u128)
    requires
        t1 % 7 == t2 % 7,
    ensures
        select_spec(t1 as int % 7) == select_spec(t2 as int % 7),
{
}

} // verus!
