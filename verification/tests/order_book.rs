use rust_arb_bot::app_config::{AppConfig, FeedConfig, OrderBookCollectorConfig};
use rust_arb_bot::clock::{Clock, FixedClock, SystemClock};
use rust_arb_bot::order_book_collector::Source::Binance;
use rust_arb_bot::order_book_collector::{
    handle_message, process_queue, Asset, OrderBook, OrderBookCollector, OrderBookLevel, ProcessorMessage, Source,
};
use rust_arb_bot::worker::StopLatch;
use std::sync::Arc;

fn ticks(p: f64) -> u64 {
    (p * 100_000_000.0).round() as u64
}

fn given_config() -> AppConfig {
    let feed_cfg = FeedConfig { source: Binance, url_pattern: "mock".to_string(), enabled: true };
    AppConfig {
        feeds: vec![feed_cfg],
        ob_collector_config: OrderBookCollectorConfig { time_diff: 1000, enabled: true },
    }
}

fn given_order_book(price: f64, timestamp: i64, asset: Asset) -> OrderBook {
    OrderBook {
        source: Binance,
        asset: asset.clone(),
        timestamp,
        bids: vec![OrderBookLevel { price: ticks(price), qty: ticks(1.0) }],
        asks: vec![OrderBookLevel { price: ticks(price + 1.0), qty: ticks(1.0) }],
    }
}

#[test]
fn test_init_and_collect_order_book() {
    // given
    let config = given_config();
    let clock = Arc::new(SystemClock::new());
    let mut collector = OrderBookCollector::new(config.clone(), clock.clone());
    let order_book = given_order_book(100.0, clock.current_timestamp(), Asset::from("ETHUSDT"));

    // when
    let result = collector.collect_order_book(order_book.clone());

    // then
    assert_eq!(result, true);

    assert_eq!(collector.state_len(), 1);
    let order_book = collector.order_book(Binance, &"ETHUSDT".to_string()).unwrap();
    assert_eq!(order_book.bids.len(), 1);
    assert_eq!(order_book.bids.get(0).unwrap().price, order_book.bids.get(0).unwrap().price);
    assert_eq!(order_book.bids.get(0).unwrap().qty, order_book.bids.get(0).unwrap().qty);
    assert_eq!(order_book.asks.len(), 1);
    assert_eq!(order_book.asks.get(0).unwrap().price, order_book.asks.get(0).unwrap().price);
    assert_eq!(order_book.asks.get(0).unwrap().qty, order_book.asks.get(0).unwrap().qty);
}

#[test]
fn test_init_and_collect_order_stale_book() {
    // given
    let config = given_config();
    let clock = Arc::new(FixedClock::new());
    let mut collector = OrderBookCollector::new(config.clone(), clock.clone());
    let order_book = given_order_book(
        100.0,
        clock.current_timestamp() - config.ob_collector_config.time_diff - 1,
        Asset::from("ETHUSDT"),
    );

    // when
    let result = collector.collect_order_book(order_book.clone());

    // then
    assert_eq!(result, false);
    assert_eq!(collector.state_is_empty(), true);
}

#[test]
fn book_exactly_time_diff_old_is_kept() {
    let clock = Arc::new(FixedClock { fixed_timestamp: 50_000 });
    let mut collector = OrderBookCollector::new(given_config(), clock);
    assert!(collector.collect_order_book(given_order_book(1.0, 49_000, "A".to_string())));
    assert!(!collector.collect_order_book(given_order_book(1.0, 48_999, "B".to_string())));
    assert!(collector.order_book(Binance, &"A".to_string()).is_some());
    assert!(collector.order_book(Binance, &"B".to_string()).is_none());
    // a book from the future is kept too
    assert!(collector.collect_order_book_at(given_order_book(2.0, 60_000, "A".to_string()), 50_000));
    assert_eq!(collector.order_book(Binance, &"A".to_string()).unwrap().timestamp, 60_000);
}

#[test]
fn latest_book_replaces_earlier() {
    let clock = Arc::new(FixedClock { fixed_timestamp: 10 });
    let mut collector = OrderBookCollector::new(given_config(), clock);
    assert!(collector.collect_order_book(given_order_book(1.0, 10, "X".to_string())));
    assert!(collector.collect_order_book(given_order_book(2.0, 9, "X".to_string())));
    assert!(collector.collect_order_book(given_order_book(3.0, 9, "Y".to_string())));
    assert_eq!(collector.state_len(), 1);
    let x = collector.order_book(Binance, &"X".to_string()).unwrap();
    assert_eq!(x.bids[0].price, ticks(2.0));
    assert_eq!(collector.order_book(Binance, &"Y".to_string()).unwrap().bids[0].price, ticks(3.0));
}

#[test]
fn reconfiguration_drops_books_of_removed_sources() {
    let clock = Arc::new(FixedClock { fixed_timestamp: 10 });
    let mut collector = OrderBookCollector::new(given_config(), clock);
    assert!(collector.collect_order_book(given_order_book(1.0, 10, "X".to_string())));
    let only_uniswap = AppConfig {
        feeds: vec![FeedConfig { source: Source::Uniswap, url_pattern: "u".to_string(), enabled: false }],
        ob_collector_config: OrderBookCollectorConfig { time_diff: 5, enabled: false },
    };
    collector.init(only_uniswap);
    assert!(collector.state_is_empty());
    assert!(collector.feed_config(Binance).is_none());
    assert!(!collector.feed_config(Source::Uniswap).unwrap().enabled);
    assert_eq!(collector.config().time_diff, 5);
}

#[test]
fn order_book_processor_messages() {
    let clock = Arc::new(FixedClock { fixed_timestamp: 10 });
    let mut collector = OrderBookCollector::new(given_config(), clock);
    let mut latch = StopLatch::new();
    handle_message(&mut collector, &mut latch, ProcessorMessage::OrderBook(given_order_book(1.0, 10, "X".to_string())));
    assert_eq!(collector.state_len(), 1);
    let mut cfg = given_config();
    cfg.ob_collector_config.time_diff = 7;
    handle_message(&mut collector, &mut latch, ProcessorMessage::ConfigChange(cfg));
    assert_eq!(collector.config().time_diff, 7);
    assert!(!latch.stop_requested);
    handle_message(&mut collector, &mut latch, ProcessorMessage::Stop);
    assert!(latch.stop_requested);
    assert_eq!(collector.state_len(), 1);
}

#[test]
fn applying_a_config_twice_keeps_books() {
    let clock = Arc::new(FixedClock { fixed_timestamp: 10 });
    let mut collector = OrderBookCollector::new(given_config(), clock);
    assert!(collector.collect_order_book(given_order_book(1.0, 10, "X".to_string())));
    collector.init(given_config());
    collector.init(given_config());
    assert_eq!(collector.state_len(), 1);
    assert!(collector.feed_config(Binance).unwrap().enabled);
}

#[test]
fn queue_is_drained_in_order_through_stop() {
    let clock = Arc::new(FixedClock { fixed_timestamp: 10 });
    let mut collector = OrderBookCollector::new(given_config(), clock);
    let mut latch = StopLatch::new();
    let mut cfg = given_config();
    cfg.ob_collector_config.time_diff = 7;
    process_queue(
        &mut collector,
        &mut latch,
        vec![
            ProcessorMessage::OrderBook(given_order_book(1.0, 10, "X".to_string())),
            ProcessorMessage::Stop,
            ProcessorMessage::ConfigChange(cfg),
            ProcessorMessage::OrderBook(given_order_book(2.0, 10, "Y".to_string())),
        ],
    );
    assert!(latch.stop_requested);
    assert!(latch.should_exit(true));
    assert!(!latch.should_exit(false));
    assert_eq!(collector.config().time_diff, 7);
    assert_eq!(collector.state_len(), 1);
    assert!(collector.order_book(Binance, &"X".to_string()).is_some());
    assert_eq!(collector.order_book(Binance, &"Y".to_string()).unwrap().bids[0].price, ticks(2.0));
    let mut other = StopLatch::new();
    process_queue(&mut collector, &mut other, vec![]);
    assert!(!other.stop_requested);
}
