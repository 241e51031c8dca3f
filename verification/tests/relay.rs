use price_relay::adapters::{
    get_coin360_price, get_coingecko_price, get_coinmarketcap_price, get_cryptorank_price,
    get_gateio_price, get_kucoin_price, get_livecoinwatch_price,
};
use price_relay::decimal::{normalize, parse_decimal, try_normalize, Decimal};
use price_relay::errors::OracleError;
use price_relay::orchestrate::{Action, Event, Phase, Relay, RunConfig};
use price_relay::quotes::{
    CoinMarketCap, CoinMarketCapData, CoinWatch, Coingecko, CompleteRes, Cryptorank,
    CryptorankData, Datum, KucoinData, KucoinPrice, Point, Price, RaceAndCompleteRes,
};
use price_relay::selector::{select, Provider};
use price_relay::submit::{
    coin360_window, contract_address, gateio_window, keystore_passphrase, keystore_path,
    livecoinwatch_window, method_name, rpc_endpoint, submission_request,
};

const ONE: u64 = 1_000_000_000_000_000_000;

fn dec(s: &str) -> Decimal {
    parse_decimal(s.as_bytes()).expect("decimal should parse")
}

#[test]
fn parse_plain_decimals() {
    assert_eq!(dec("3.14159"), Decimal { mantissa: 314159, scale: 5 });
    assert_eq!(dec("0"), Decimal { mantissa: 0, scale: 0 });
    assert_eq!(dec("42"), Decimal { mantissa: 42, scale: 0 });
    assert_eq!(dec("5."), Decimal { mantissa: 5, scale: 0 });
    assert_eq!(dec(".5"), Decimal { mantissa: 5, scale: 1 });
    assert_eq!(dec("007.250"), Decimal { mantissa: 7250, scale: 3 });
}

#[test]
fn parse_rejects_malformed() {
    for bad in ["", ".", "1.2.3", "12a", "-1", "+2", "1e5", " 1", "1 "] {
        assert_eq!(parse_decimal(bad.as_bytes()), Err(OracleError::Numeric), "input {:?}", bad);
    }
}

#[test]
fn parse_rejects_oversized_mantissa() {
    // One digit past the u128 range.
    let huge = "3402823669209384634633746074317682114560";
    assert_eq!(parse_decimal(huge.as_bytes()), Err(OracleError::Numeric));
}

#[test]
fn normalize_zero_is_zero() {
    assert_eq!(normalize(dec("0")), 0);
    assert_eq!(normalize(dec("0.000")), 0);
    assert_eq!(normalize(Decimal { mantissa: 0, scale: 31 }), 0);
}

#[test]
fn normalize_one_is_the_scale_factor() {
    assert_eq!(normalize(dec("1.0")), ONE);
    assert_eq!(normalize(dec("1")), ONE);
    assert_eq!(normalize(Decimal { mantissa: 1, scale: 0 }), ONE);
}

#[test]
fn normalize_exact_values() {
    assert_eq!(normalize(dec("3.14159")), 3_141_590_000_000_000_000);
    assert_eq!(normalize(dec("0.042")), 42_000_000_000_000_000);
    assert_eq!(normalize(dec("18.4")), 18_400_000_000_000_000_000);
}

#[test]
fn normalize_rounds_half_away_from_zero() {
    // Nineteen fractional digits: the last one is beyond the scale.
    assert_eq!(normalize(dec("0.0000000000000000005")), 1);
    assert_eq!(normalize(dec("0.0000000000000000004")), 0);
    assert_eq!(normalize(dec("1.9999999999999999995")), 2_000_000_000_000_000_000);
    // A value far below half a unit rounds to zero even at extreme scales.
    assert_eq!(normalize(Decimal { mantissa: 1, scale: 100 }), 0);
}

#[test]
fn normalize_is_monotonic_on_samples() {
    let samples = ["0", "0.0001", "0.042", "1", "1.5", "2.5", "3.14159", "17.9"];
    let mut last: u64 = 0;
    for s in samples {
        let v = normalize(dec(s));
        assert!(v >= last, "normalize({}) fell below its predecessor", s);
        last = v;
    }
}

#[test]
fn try_normalize_reports_overflow() {
    // 20 * 10^18 overflows the unsigned 64-bit range.
    assert_eq!(try_normalize(Decimal { mantissa: 20, scale: 0 }), None);
    assert_eq!(try_normalize(Decimal { mantissa: 18, scale: 0 }), Some(18 * ONE));
}

#[test]
fn select_follows_the_fixed_table() {
    assert_eq!(select(0), Provider::LiveCoinWatch);
    assert_eq!(select(1), Provider::Kucoin);
    assert_eq!(select(2), Provider::GateIo);
    assert_eq!(select(3), Provider::Cryptorank);
    assert_eq!(select(4), Provider::CoinMarketCap);
    assert_eq!(select(5), Provider::GateIo);
    assert_eq!(select(6), Provider::Coin360);
}

#[test]
fn select_depends_only_on_the_residue() {
    for now in 0u128..7 {
        for cycles in [1u128, 3, 1000, 1_700_000_000_000] {
            assert_eq!(select(now), select(now + 7 * cycles));
        }
    }
}

#[test]
fn gateio_round_trip() {
    let body = b"1000,1,2,3,0.5,9\n2000,1,2,3,3.14159,9\n";
    assert_eq!(get_gateio_price(body), Ok(normalize(dec("3.14159"))));
    assert_eq!(get_gateio_price(body), Ok(3_141_590_000_000_000_000));
}

#[test]
fn gateio_trailing_line_is_skipped() {
    // The final newline leaves an empty last row; the close price comes
    // from the second-to-last row, the last one with data.
    let body = b"1,1,1,1,1.0,1\n2,2,2,2,2.0,2\n3,3,3,3,4.5,3\n";
    assert_eq!(get_gateio_price(body), Ok(4_500_000_000_000_000_000));
}

#[test]
fn gateio_malformed() {
    // No newline: a single row, nothing second-to-last.
    assert_eq!(get_gateio_price(b"1,2,3,4,5,6"), Err(OracleError::Parse));
    // Too few columns in the selected row.
    assert_eq!(get_gateio_price(b"1,2,3\n4,5\n"), Err(OracleError::Parse));
    // A column that is not a number.
    assert_eq!(get_gateio_price(b"x\n1,2,3,4,oops,6\n"), Err(OracleError::Numeric));
}

fn cmc(points: Vec<(u128, Point)>) -> CoinMarketCap {
    CoinMarketCap { data: CoinMarketCapData { points } }
}

#[test]
fn coinmarketcap_takes_the_latest_point() {
    let q = cmc(vec![
        (100, Point { v: vec![dec("1.5")] }),
        (200, Point { v: vec![dec("2.5")] }),
    ]);
    assert_eq!(get_coinmarketcap_price(&q), Ok(2_500_000_000_000_000_000));
}

#[test]
fn coinmarketcap_is_order_independent() {
    let q = cmc(vec![
        (200, Point { v: vec![dec("2.5")] }),
        (100, Point { v: vec![dec("1.5")] }),
        (150, Point { v: vec![dec("9.9")] }),
    ]);
    assert_eq!(get_coinmarketcap_price(&q), Ok(2_500_000_000_000_000_000));
}

#[test]
fn coinmarketcap_malformed() {
    assert_eq!(get_coinmarketcap_price(&cmc(vec![])), Err(OracleError::Parse));
    let empty_point = cmc(vec![(100, Point { v: vec![] })]);
    assert_eq!(get_coinmarketcap_price(&empty_point), Err(OracleError::Parse));
}

#[test]
fn end_to_end_residue_four_reaches_the_chart_aggregator() {
    let now: u128 = 1_700_000_000_003;
    assert_eq!(now % 7, 4);
    assert_eq!(select(now), Provider::CoinMarketCap);
    let q = cmc(vec![
        (100, Point { v: vec![dec("1.5")] }),
        (200, Point { v: vec![dec("2.5")] }),
    ]);
    let price = get_coinmarketcap_price(&q).expect("price expected");
    assert_eq!(price, 2_500_000_000_000_000_000);
    let request = submission_request(price);
    assert_eq!(request.price, 2_500_000_000_000_000_000);
}

#[test]
fn coingecko_takes_the_last_pair() {
    let q = Coingecko {
        stats: vec![vec![dec("1"), dec("1.1")], vec![dec("2"), dec("2.2")]],
    };
    assert_eq!(get_coingecko_price(&q), Ok(2_200_000_000_000_000_000));
}

#[test]
fn coingecko_malformed() {
    let empty = Coingecko { stats: vec![] };
    assert_eq!(get_coingecko_price(&empty), Err(OracleError::Parse));
    let short = Coingecko { stats: vec![vec![dec("1"), dec("1.1")], vec![dec("2")]] };
    assert_eq!(get_coingecko_price(&short), Err(OracleError::Parse));
}

fn cryptorank(usd: Decimal) -> Cryptorank {
    Cryptorank {
        data: CryptorankData {
            price: Price { btc: dec("0.0001"), eth: dec("0.002"), usd },
        },
    }
}

#[test]
fn cryptorank_round_trip() {
    // The USD field carries 3.14159; the result is its normalization.
    let q = cryptorank(dec("3.14159"));
    assert_eq!(get_cryptorank_price(&q), Ok(normalize(dec("3.14159"))));
}

#[test]
fn cryptorank_out_of_range() {
    let q = cryptorank(Decimal { mantissa: 20, scale: 0 });
    assert_eq!(get_cryptorank_price(&q), Err(OracleError::Numeric));
}

fn kucoin(price: &str) -> KucoinPrice {
    KucoinPrice {
        code: "200000".to_string(),
        data: KucoinData {
            time: 1,
            sequence: "1".to_string(),
            price: price.to_string(),
            size: "1".to_string(),
            best_bid: "1".to_string(),
            best_bid_size: "1".to_string(),
            best_ask: "1".to_string(),
            best_ask_size: "1".to_string(),
        },
    }
}

#[test]
fn kucoin_parses_the_price_string() {
    assert_eq!(get_kucoin_price(&kucoin("0.042")), Ok(42_000_000_000_000_000));
}

#[test]
fn kucoin_malformed() {
    assert_eq!(get_kucoin_price(&kucoin("")), Err(OracleError::Numeric));
    assert_eq!(get_kucoin_price(&kucoin("1,5")), Err(OracleError::Numeric));
}

fn coinwatch(rates: Vec<&str>) -> CoinWatch {
    CoinWatch {
        success: true,
        coin: "DPR".to_string(),
        data: rates
            .into_iter()
            .enumerate()
            .map(|(i, r)| Datum { date: i as i64, rate: dec(r), volume: 0, cap: 0 })
            .collect(),
    }
}

#[test]
fn livecoinwatch_takes_the_last_rate() {
    let q = coinwatch(vec!["1.5", "2.5", "0.75"]);
    assert_eq!(get_livecoinwatch_price(&q), Ok(750_000_000_000_000_000));
}

#[test]
fn livecoinwatch_malformed() {
    assert_eq!(get_livecoinwatch_price(&coinwatch(vec![])), Err(OracleError::Parse));
}

#[test]
fn coin360_takes_the_first_field() {
    let graph = vec![vec![dec("0.042"), dec("9")], vec![dec("7")]];
    assert_eq!(get_coin360_price(&graph), Ok(42_000_000_000_000_000));
}

#[test]
fn coin360_malformed() {
    assert_eq!(get_coin360_price(&vec![]), Err(OracleError::Parse));
    assert_eq!(get_coin360_price(&vec![vec![]]), Err(OracleError::Parse));
}

#[test]
fn submission_request_is_fully_fixed() {
    let r = submission_request(42);
    assert_eq!(
        r.to,
        vec![
            0x86, 0x2a, 0xf0, 0xcf, 0x43, 0x97, 0xc0, 0x6b, 0x4b, 0x76, 0x28, 0x8c, 0x97, 0xab,
            0xef, 0xdf, 0x3e, 0xd5, 0xf1, 0x21,
        ]
    );
    assert_eq!(r.method, "setTokenPrice");
    assert_eq!(r.price, 42);
    assert_eq!(r.gas, 140850);
    assert_eq!(r.confirmations, 1);
    assert_eq!(contract_address(), r.to);
}

#[test]
fn fixed_configuration_constants() {
    assert_eq!(method_name(), "setTokenPrice");
    assert_eq!(rpc_endpoint(), "https://mainnet-dev.deeper.network/rpc");
    assert_eq!(keystore_path(), "/eth.keystore");
    assert_eq!(keystore_passphrase(), "VGPUmPKNtBzDvCJK");
}

#[test]
fn query_windows() {
    let now: u128 = 1_700_000_086_400_000;
    assert_eq!(gateio_window(now), (1_700_000_000_000, 1_700_000_086_400));
    assert_eq!(livecoinwatch_window(now), (now - 86_400_000, now));
    assert_eq!(coin360_window(now), (1_700_000_082_800, 1_700_000_086_400));
    // Clamped at the epoch rather than underflowing.
    assert_eq!(gateio_window(0), (0, 0));
    assert_eq!(livecoinwatch_window(5), (0, 5));
    assert_eq!(coin360_window(0), (0, 0));
}

fn plain_cfg(delay: Option<u64>) -> RunConfig {
    RunConfig { delay, task_id: None, coordination: false }
}

#[test]
fn delay_zero_never_sleeps() {
    let mut relay = Relay::new(plain_cfg(Some(0)));
    let action = relay.step(Event::Started);
    assert!(matches!(action, Action::ReadClock));
    assert!(!matches!(action, Action::Sleep { .. }));
    assert_eq!(relay.phase, Phase::AwaitClock);
}

#[test]
fn no_delay_flag_never_sleeps() {
    let mut relay = Relay::new(plain_cfg(None));
    assert!(matches!(relay.step(Event::Started), Action::ReadClock));
}

#[test]
fn positive_delay_stays_below_the_bound() {
    for _ in 0..32 {
        let mut relay = Relay::new(plain_cfg(Some(5)));
        match relay.step(Event::Started) {
            Action::Sleep { secs } => {
                assert!(0 < secs && secs < 5);
                assert_eq!(relay.phase, Phase::Sleeping);
                assert!(matches!(relay.step(Event::Slept), Action::ReadClock));
            }
            Action::ReadClock => assert_eq!(relay.phase, Phase::AwaitClock),
            _ => panic!("unexpected boot action"),
        }
    }
}

#[test]
fn full_run_with_coordination() {
    let cfg = RunConfig { delay: None, task_id: Some(7), coordination: true };
    let mut relay = Relay::new(cfg);
    match relay.step(Event::Started) {
        Action::Claim { task_id } => assert_eq!(task_id, 7),
        _ => panic!("expected a claim"),
    }
    let reply = RaceAndCompleteRes { success: true, error: None };
    assert!(matches!(relay.step(Event::ClaimReply { reply }), Action::ReadClock));
    match relay.step(Event::Clock { now_millis: 1_700_000_000_003 }) {
        Action::FetchQuote { provider } => assert_eq!(provider, Provider::CoinMarketCap),
        _ => panic!("expected a fetch"),
    }
    match relay.step(Event::QuoteReady { price: 42 }) {
        Action::SubmitPrice { request } => {
            assert_eq!(request.price, 42);
            assert_eq!(request.gas, 140850);
            assert_eq!(request.confirmations, 1);
        }
        _ => panic!("expected a submission"),
    }
    match relay.step(Event::Submitted) {
        Action::NotifyComplete { task_id } => assert_eq!(task_id, 7),
        _ => panic!("expected a completion report"),
    }
    let outcome = CompleteRes { success: true, error: None };
    match relay.step(Event::NotifyReply { outcome }) {
        Action::Stop { exit_ok } => assert!(exit_ok),
        _ => panic!("expected a stop"),
    }
    assert_eq!(relay.phase, Phase::Stopped { ok: true });
}

#[test]
fn lost_claim_gives_up_cleanly() {
    let cfg = RunConfig { delay: None, task_id: Some(3), coordination: true };
    let mut relay = Relay::new(cfg);
    relay.step(Event::Started);
    let reply = RaceAndCompleteRes { success: false, error: Some("taken".to_string()) };
    match relay.step(Event::ClaimReply { reply }) {
        Action::Stop { exit_ok } => assert!(exit_ok),
        _ => panic!("expected a stop"),
    }
    assert_eq!(relay.phase, Phase::Stopped { ok: true });
}

#[test]
fn failures_stop_the_run() {
    let mut relay = Relay::new(plain_cfg(None));
    relay.step(Event::Started);
    relay.step(Event::Clock { now_millis: 0 });
    match relay.step(Event::QuoteFailed { error: OracleError::Fetch }) {
        Action::Stop { exit_ok } => assert!(!exit_ok),
        _ => panic!("expected a stop"),
    }
    assert_eq!(relay.phase, Phase::Stopped { ok: false });

    let mut relay = Relay::new(plain_cfg(None));
    relay.step(Event::Started);
    relay.step(Event::Clock { now_millis: 0 });
    relay.step(Event::QuoteReady { price: 1 });
    match relay.step(Event::SubmitFailed { error: OracleError::Submission }) {
        Action::Stop { exit_ok } => assert!(!exit_ok),
        _ => panic!("expected a stop"),
    }
}

#[test]
fn unexpected_events_stop_the_run() {
    let mut relay = Relay::new(plain_cfg(None));
    relay.step(Event::Started);
    match relay.step(Event::Started) {
        Action::Stop { exit_ok } => assert!(!exit_ok),
        _ => panic!("expected a stop"),
    }
    assert_eq!(relay.phase, Phase::Stopped { ok: false });
    // A stopped run only restates its status.
    match relay.step(Event::Submitted) {
        Action::Stop { exit_ok } => assert!(!exit_ok),
        _ => panic!("expected a stop"),
    }
}

#[test]
fn error_descriptions() {
    assert_eq!(OracleError::Fetch.describe(), "fetch failed");
    assert_eq!(OracleError::Parse.describe(), "malformed response");
    assert_eq!(OracleError::Numeric.describe(), "bad numeric value");
    assert_eq!(OracleError::Keystore.describe(), "keystore failure");
    assert_eq!(OracleError::Transport.describe(), "rpc connection failure");
    assert_eq!(OracleError::Submission.describe(), "submission failure");
}
