use rust_arb_bot::index_collector::SmoothingAlgorithm::{EMA, SMA};
use rust_arb_bot::index_collector::{
    contains_text, feed_id, DownstreamConfig, IndexCollectorAppConfig, IndexFeeds, PriceFeedConfig,
    SmoothingAlgorithm, Source,
};

fn feed(source: Source, asset: &str, smoothing: Option<SmoothingAlgorithm>, weight: u32) -> PriceFeedConfig {
    PriceFeedConfig {
        source,
        asset: asset.to_string(),
        smoothing,
        url_pattern: "".to_string(),
        weight,
        enabled: true,
        fail_count_warn: None,
    }
}

#[test]
fn test_removing_old_config() {
    // given
    let asset1 = "BTC".to_string();
    let asset2 = "ETH".to_string();
    let price_feeds = vec![
        (asset1.clone(), vec![feed(Source::Coinbase, "BTC", Some(SMA), 60)]),
        (asset2.clone(), vec![feed(Source::Coinbase, "ETH", Some(SMA), 60)]),
    ];

    // and
    let (mut collector, _) = IndexFeeds::new(price_feeds);

    // when: config updated and old feed removed
    let new_price_feeds = vec![(asset1.clone(), vec![feed(Source::Coinbase, "BTC", Some(EMA), 60)])];
    let installed = collector.init(new_price_feeds);

    // then
    assert_eq!(collector.feed_config(&"Coinbase_BTC".to_string()).is_some(), true);
    assert_eq!(collector.feed_config(&"Coinbase_ETH".to_string()).is_none(), true);
    assert_eq!(collector.smoothing(&"Coinbase_BTC".to_string()).is_some(), true);
    assert_eq!(collector.smoothing(&"Coinbase_ETH".to_string()).is_none(), true);
    assert_eq!(installed, vec![("Coinbase_BTC".to_string(), EMA)]);
}

#[test]
fn unchanged_feed_keeps_its_smoothing() {
    let feeds = vec![("BTC".to_string(), vec![feed(Source::Kraken, "BTC", Some(SMA), 40)])];
    let (mut f, installed) = IndexFeeds::new(feeds.clone());
    assert_eq!(installed, vec![("Kraken_BTC".to_string(), SMA)]);
    let again = f.init(feeds);
    assert!(again.is_empty());
    assert_eq!(f.smoothing(&"Kraken_BTC".to_string()), Some(SMA));
    assert_eq!(f.weight(&"Kraken_BTC".to_string()), Some(40));
}

#[test]
fn dropping_smoothing_removes_the_smoother() {
    let (mut f, _) = IndexFeeds::new(vec![("BTC".to_string(), vec![feed(Source::Kraken, "BTC", Some(EMA), 40)])]);
    let installed = f.init(vec![("BTC".to_string(), vec![feed(Source::Kraken, "BTC", None, 50)])]);
    assert!(installed.is_empty());
    assert_eq!(f.smoothing(&"Kraken_BTC".to_string()), None);
    assert_eq!(f.weight(&"Kraken_BTC".to_string()), Some(50));
}

#[test]
fn feed_ids_and_asset_matching() {
    assert_eq!(feed_id(&Source::Coinbase, &"BTC".to_string()), "Coinbase_BTC");
    assert!(contains_text("Coinbase_BTC", "BTC"));
    assert!(contains_text("Coinbase_BTC", ""));
    assert!(!contains_text("Coinbase_ETH", "BTC"));
    assert!(!contains_text("BT", "BTC"));
    assert!(contains_text("Kraken_BTCUSD", "BTC"));
}

fn app_config(groups: Vec<(String, Vec<PriceFeedConfig>)>) -> IndexCollectorAppConfig {
    IndexCollectorAppConfig {
        price_feeds: groups,
        downstream: DownstreamConfig { url: "http://127.0.0.1:8080/api/v1/callback".to_string() },
    }
}

#[test]
fn weights_of_each_asset_must_sum_to_100() {
    let ok = app_config(vec![
        ("BTC".to_string(), vec![feed(Source::Coinbase, "BTC", None, 60), feed(Source::Kraken, "BTC", None, 40)]),
        ("ETH".to_string(), vec![feed(Source::Coinbase, "ETH", None, 100)]),
    ]);
    assert!(ok.validate().is_ok());
    let bad = app_config(vec![
        ("BTC".to_string(), vec![feed(Source::Coinbase, "BTC", None, 60), feed(Source::Kraken, "BTC", None, 40)]),
        ("ETH".to_string(), vec![feed(Source::Coinbase, "ETH", None, 60)]),
        ("SOL".to_string(), vec![feed(Source::Coinbase, "SOL", None, 99)]),
    ]);
    assert_eq!(bad.validate(), Err("Weights of ETH do not sum to 100".to_string()));
    let over = app_config(vec![("BTC".to_string(), vec![feed(Source::Coinbase, "BTC", None, u32::MAX), feed(Source::Kraken, "BTC", None, 1)])]);
    assert!(over.validate().is_err());
}

#[test]
fn invalid_config_is_not_applied() {
    let (mut f, _) = IndexFeeds::new(vec![("BTC".to_string(), vec![feed(Source::Coinbase, "BTC", Some(SMA), 100)])]);
    let r = f.apply(app_config(vec![("ETH".to_string(), vec![feed(Source::Coinbase, "ETH", None, 50)])]));
    assert!(r.is_err());
    assert!(f.feed_config(&"Coinbase_BTC".to_string()).is_some());
    assert!(f.feed_config(&"Coinbase_ETH".to_string()).is_none());
    let r = f.apply(app_config(vec![("ETH".to_string(), vec![feed(Source::Coinbase, "ETH", Some(EMA), 100)])]));
    assert_eq!(r, Ok(vec![("Coinbase_ETH".to_string(), EMA)]));
    assert!(f.feed_config(&"Coinbase_BTC".to_string()).is_none());
}
