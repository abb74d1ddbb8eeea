use rust_arb_bot::app_config::{
    config_key_for_env, AppConfig, ConfigWatcher, FeedConfig, OrderBookCollectorConfig, LOCAL, QA,
};
use rust_arb_bot::order_book_collector::Source;
use rust_arb_bot::order_book_collector::Source::Binance;

fn feed(source: Source, url: &str, enabled: bool) -> FeedConfig {
    FeedConfig { source, url_pattern: url.to_string(), enabled }
}

fn config(feeds: Vec<FeedConfig>, time_diff: i64) -> AppConfig {
    AppConfig { feeds, ob_collector_config: OrderBookCollectorConfig { time_diff, enabled: true } }
}

#[test]
fn test_url_resolution() {
    // given
    let cfg = FeedConfig {
        source: Binance,
        url_pattern: "wss://stream.binance.com:9443/ws/ethusdt@aggTrade".to_string(),
        enabled: true,
    };

    // when then
    assert_eq!(cfg.url().as_str(), "wss://stream.binance.com:9443/ws/ethusdt@aggTrade");
}

#[test]
fn feed_key_is_its_source() {
    assert_eq!(feed(Source::Uniswap, "u", false).key(), Source::Uniswap);
    assert_eq!(feed(Source::Binance, "b", true).key(), Source::Binance);
}

#[test]
fn config_key_follows_environment() {
    assert_eq!(config_key_for_env(QA), "order_book/qa");
    assert_eq!(config_key_for_env("testnet"), "order_book/testnet");
    assert_eq!(config_key_for_env("prod"), "order_book/prod");
    assert_eq!(config_key_for_env(LOCAL), "order_book/local");
    assert_eq!(config_key_for_env("staging"), "order_book/local");
    assert_eq!(config_key_for_env(""), "order_book/local");
}

#[test]
fn every_config_validates() {
    let c = config(vec![feed(Binance, "x", true)], 5);
    assert!(c.validate().is_ok());
    assert!(config(vec![], -1).validate().is_ok());
}

#[test]
fn collector_config_default() {
    let d = OrderBookCollectorConfig::default();
    assert_eq!(d.time_diff, 1000);
    assert!(d.enabled);
}

#[test]
fn config_comparison_by_content() {
    let a = config(vec![feed(Binance, "x", true)], 5);
    assert!(a.same_as(&a.duplicate()));
    assert!(!a.same_as(&config(vec![feed(Binance, "y", true)], 5)));
    assert!(!a.same_as(&config(vec![feed(Binance, "x", false)], 5)));
    assert!(!a.same_as(&config(vec![feed(Binance, "x", true)], 6)));
    assert!(!a.same_as(&config(vec![], 5)));
}

#[test]
fn watcher_passes_on_changes_once() {
    let mut w = ConfigWatcher::new(config(vec![feed(Binance, "x", true)], 5));
    // the same configuration is not passed on
    assert!(!w.on_update(config(vec![feed(Binance, "x", true)], 5)));
    // a changed one is, once
    assert!(w.on_update(config(vec![feed(Source::Uniswap, "u", true)], 5)));
    assert!(!w.on_update(config(vec![feed(Source::Uniswap, "u", true)], 5)));
    assert_eq!(w.current().feeds.len(), 1);
    assert_eq!(w.current().feeds[0].source, Source::Uniswap);
}

#[test]
fn watcher_passes_on_each_change_of_a_stream() {
    let mut w = ConfigWatcher::new(config(vec![feed(Binance, "x", true)], 5));
    let passed = w.on_updates(vec![
        config(vec![feed(Binance, "x", true)], 5),
        config(vec![feed(Binance, "x", true)], 6),
        config(vec![feed(Binance, "x", true)], 6),
        config(vec![feed(Source::Uniswap, "u", false)], 6),
        config(vec![feed(Binance, "x", true)], 6),
    ]);
    assert_eq!(passed.len(), 3);
    assert_eq!(passed[0].ob_collector_config.time_diff, 6);
    assert_eq!(passed[1].feeds[0].source, Source::Uniswap);
    assert_eq!(passed[2].feeds[0].source, Binance);
    assert!(w.current().same_as(&passed[2]));
    let none = w.on_updates(vec![config(vec![feed(Binance, "x", true)], 6)]);
    assert!(none.is_empty());
    assert!(w.on_updates(vec![]).is_empty());
}
