use rust_arb_bot::binance_order_book_feed::{parse, parse_levels, DepthUpdate, LevelError};
use rust_arb_bot::decimal::{parse_fixed, SCALE};
use rust_arb_bot::order_book_collector::{OrderBookLevel, Source};
use rust_arb_bot::price_feed::{AggTrade, PriceEvent};

fn level(p: &str, q: &str) -> Vec<String> {
    vec![p.to_string(), q.to_string()]
}

#[test]
fn decimals_read_as_fixed_point() {
    assert_eq!(parse_fixed("1"), Some(SCALE));
    assert_eq!(parse_fixed("0.00100000"), Some(100_000));
    assert_eq!(parse_fixed("101.1"), Some(10_110_000_000));
    assert_eq!(parse_fixed("+2.5"), Some(250_000_000));
    assert_eq!(parse_fixed(".5"), Some(50_000_000));
    assert_eq!(parse_fixed("7."), Some(7 * SCALE));
    assert_eq!(parse_fixed("0.12345678"), Some(12_345_678));
    assert_eq!(parse_fixed("184467440737.09551615"), Some(u64::MAX));
}

#[test]
fn float_notation_reads_where_exact() {
    assert_eq!(parse_fixed("1e3"), Some(1000 * SCALE));
    assert_eq!(parse_fixed("1E3"), Some(1000 * SCALE));
    assert_eq!(parse_fixed("1e5"), Some(100_000 * SCALE));
    assert_eq!(parse_fixed("1.5e-2"), Some(1_500_000));
    assert_eq!(parse_fixed("25e+1"), Some(250 * SCALE));
    assert_eq!(parse_fixed("1.e1"), Some(10 * SCALE));
    assert_eq!(parse_fixed("0.123456780"), Some(12_345_678));
    assert_eq!(parse_fixed("10e-9"), Some(1));
    assert_eq!(parse_fixed("18446744073709551615e-8"), Some(u64::MAX));
    assert_eq!(parse_fixed("-0"), Some(0));
    assert_eq!(parse_fixed("-0.0e5"), Some(0));
    assert_eq!(parse_fixed("0e99999999999999999999999"), Some(0));
    assert_eq!(parse_fixed("000.000"), Some(0));
}

#[test]
fn non_decimals_are_refused() {
    assert_eq!(parse_fixed(""), None);
    assert_eq!(parse_fixed("."), None);
    assert_eq!(parse_fixed("+"), None);
    assert_eq!(parse_fixed("-1"), None);
    assert_eq!(parse_fixed("1e"), None);
    assert_eq!(parse_fixed("1e+"), None);
    assert_eq!(parse_fixed("e5"), None);
    assert_eq!(parse_fixed(".e1"), None);
    assert_eq!(parse_fixed("inf"), None);
    assert_eq!(parse_fixed("NaN"), None);
    assert_eq!(parse_fixed("-0.5"), None);
    assert_eq!(parse_fixed("1e-9"), None);
    assert_eq!(parse_fixed("1e99999999999999999999999"), None);
    assert_eq!(parse_fixed("1e-99999999999999999999999"), None);
    assert_eq!(parse_fixed("1 "), None);
    assert_eq!(parse_fixed("1.2.3"), None);
    assert_eq!(parse_fixed("abc"), None);
    assert_eq!(parse_fixed("0.123456789"), None);
    assert_eq!(parse_fixed("184467440737.09551616"), None);
    assert_eq!(parse_fixed("99999999999999999999999"), None);
}

#[test]
fn depth_update_becomes_order_book() {
    let u = DepthUpdate {
        E: 123,
        s: "BTCUSDT".to_string(),
        b: vec![level("100.5", "2"), level("100", "0.5")],
        a: vec![level("101", "1")],
    };
    let book = parse(u).ok().unwrap().unwrap();
    assert_eq!(book.source, Source::Binance);
    assert_eq!(book.asset, "BTCUSDT");
    assert_eq!(book.timestamp, 123);
    assert_eq!(book.bids, vec![
        OrderBookLevel { price: 10_050_000_000, qty: 200_000_000 },
        OrderBookLevel { price: 10_000_000_000, qty: 50_000_000 },
    ]);
    assert_eq!(book.asks, vec![OrderBookLevel { price: 10_100_000_000, qty: SCALE }]);
}

fn error_of(b: Vec<Vec<String>>, a: Vec<Vec<String>>) -> (Option<u16>, String) {
    let e = parse(DepthUpdate { E: 0, s: "X".to_string(), b, a }).err().unwrap();
    (e.code, e.message)
}

#[test]
fn bad_levels_are_reported() {
    assert_eq!(error_of(vec![vec!["1".to_string()]], vec![]), (Some(400), "Invalid bid format in depth update".to_string()));
    assert_eq!(error_of(vec![level("x", "1")], vec![]), (Some(400), "Invalid price in bid".to_string()));
    assert_eq!(error_of(vec![level("1", "y")], vec![]), (Some(400), "Invalid qty in bid".to_string()));
    assert_eq!(error_of(vec![], vec![level("1", "2"), vec![]]), (Some(400), "Invalid bid format in depth update".to_string()));
    assert_eq!(error_of(vec![], vec![level("z", "2")]), (Some(400), "Invalid price in ask".to_string()));
    assert_eq!(error_of(vec![], vec![level("1", "-2")]), (Some(400), "Invalid qty in ask".to_string()));
    // bids are looked at before asks, and the first bad level counts
    assert_eq!(error_of(vec![level("1", "q"), level("p", "1")], vec![level("z", "2")]), (Some(400), "Invalid qty in bid".to_string()));
}

#[test]
fn levels_stop_at_first_error() {
    assert_eq!(parse_levels(&vec![level("1", "1"), level("a", "1"), vec![]]).err(), Some(LevelError::Price));
    assert_eq!(parse_levels(&vec![]).ok().unwrap().len(), 0);
}

#[test]
fn agg_trade_price() {
    let t = AggTrade { p: "1850.25".to_string(), T: 77 };
    assert_eq!(t.to_price_event(), Some(PriceEvent { price: 185_025_000_000, timestamp: 77 }));
    assert_eq!(AggTrade { p: "n/a".to_string(), T: 1 }.to_price_event(), None);
}

#[test]
fn exponent_levels_and_trades_are_read() {
    let u = DepthUpdate {
        E: 5,
        s: "BTCUSDT".to_string(),
        b: vec![level("1e3", "2.50000000000")],
        a: vec![level("1.001E3", "0")],
    };
    let book = parse(u).ok().unwrap().unwrap();
    assert_eq!(book.bids, vec![OrderBookLevel { price: 1000 * SCALE, qty: 250_000_000 }]);
    assert_eq!(book.asks, vec![OrderBookLevel { price: 100_100_000_000, qty: 0 }]);
    let t = AggTrade { p: "1e3".to_string(), T: 9 };
    assert_eq!(t.to_price_event(), Some(PriceEvent { price: 1000 * SCALE, timestamp: 9 }));
}
