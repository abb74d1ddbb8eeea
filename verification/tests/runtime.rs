use rust_arb_bot::clock::{micros_from_reading, millis_from_micros, Clock, FixedClock, SystemClock};
use rust_arb_bot::control::Control;
use rust_arb_bot::price_feed::{
    CoinbasePriceFeed, FailCounter, FeedErr, PriceEvent, UniswapFeed, UNISWAP_PRICE,
};
use rust_arb_bot::web_state::WebAppState;
use rust_arb_bot::worker::StopLatch;
use std::sync::Arc;

#[test]
fn fixed_clock_reads_its_time() {
    let c = FixedClock { fixed_timestamp: 1234 };
    assert_eq!(c.current_timestamp(), 1234);
    assert_eq!(c.current_timestamp(), 1234);
    assert_eq!(c.current_timestamp_us(), 1_234_000);
}

#[test]
fn system_clock_reads_after_2020() {
    let c = SystemClock::new();
    let ms = c.current_timestamp();
    assert!(ms > 1_577_836_800_000);
    assert!(c.current_timestamp_us() >= ms * 1000);
    let f = FixedClock::new();
    assert!(f.fixed_timestamp >= ms);
}

#[test]
fn fail_counter_warns_after_limit() {
    let mut c = FailCounter::new(Some(2));
    assert!(!c.on_failure());
    assert!(!c.on_failure());
    assert!(c.on_failure());
    assert_eq!(c.fail_count, 0);
    assert!(!c.on_failure());
    c.on_success();
    assert_eq!(c.fail_count, 0);
    let d = FailCounter::new(None);
    assert_eq!(d.fail_count_warn, 5);
}

#[test]
fn stop_latch_waits_for_empty_queue() {
    let mut l = StopLatch::new();
    assert!(!l.should_exit(true));
    l.request_stop();
    assert!(!l.should_exit(false));
    assert!(l.should_exit(true));
}

#[test]
fn small_constructors() {
    let c = CoinbasePriceFeed::new("https://api.coinbase.com/v2/exchange-rates?currency=BTC".to_string());
    assert_eq!(c.url_str(), "https://api.coinbase.com/v2/exchange-rates?currency=BTC");
    assert_eq!(UniswapFeed::new().event_at(9), PriceEvent { price: UNISWAP_PRICE, timestamp: 9 });
    assert_eq!(UNISWAP_PRICE, 1_000_000_000_000);
    let e = FeedErr::new(None, "No data".to_string());
    assert_eq!(e.code, None);
    assert_eq!(e.message, "No data");
    let control = Arc::new(Control::new());
    let state = WebAppState::new(control.clone());
    control.stop();
    assert!(state.control.is_stopped());
}

#[test]
fn test_uniswap_price_feed_integration() {
    // given
    let feed = UniswapFeed::new();

    // when
    let price = Some(feed.event_at(SystemClock::new().current_timestamp()));

    // then
    assert_eq!(price.unwrap().price > 0, true);
}

#[test]
fn fail_counter_warns_once_per_limit_run() {
    let mut c = FailCounter::new(Some(3));
    let warnings: Vec<bool> = (0..8).map(|_| c.on_failure()).collect();
    assert_eq!(warnings, vec![false, false, false, true, false, false, false, true]);
    c.on_failure();
    c.on_success();
    assert_eq!(c.fail_count, 0);
    assert!(!c.on_failure());
}

#[test]
fn coinbase_rate_is_the_usd_one() {
    let rates = vec![
        ("EUR".to_string(), "1.5".to_string()),
        ("USD".to_string(), "2.5".to_string()),
    ];
    assert_eq!(CoinbasePriceFeed::usd_rate(&rates).unwrap(), "2.5");
    let err = CoinbasePriceFeed::usd_rate(&vec![("EUR".to_string(), "1.5".to_string())]).unwrap_err();
    assert_eq!(err.code, None);
    assert_eq!(err.message, "No data");
    assert!(CoinbasePriceFeed::usd_rate(&vec![]).is_err());
}

#[test]
fn clock_readings_convert_to_millis_and_micros() {
    assert_eq!(millis_from_micros(Some(1_234_567)), 1234);
    assert_eq!(millis_from_micros(Some(999)), 0);
    assert_eq!(millis_from_micros(None), 0);
    assert_eq!(micros_from_reading(Some(1_234_567)), 1_234_567);
    assert_eq!(micros_from_reading(None), 0);
    assert_eq!(FixedClock::at_reading(Some(2_000_999)).fixed_timestamp, 2000);
    assert_eq!(FixedClock::at_reading(None).fixed_timestamp, 0);
}
