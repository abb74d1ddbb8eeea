use rust_arb_bot::arb_bot::{
    feed_id, handle_message, ArbBot, ArbBotAppConfig, ArbBotConfig, PriceFeedConfig,
    ProcessorMessage, Side, Source,
};
use rust_arb_bot::price_feed::PriceEvent;
use rust_arb_bot::worker::StopLatch;

/// Fixed-point ticks of a price.
fn ticks(p: f64) -> u64 {
    (p * 100_000_000.0).round() as u64
}

fn given_config() -> ArbBotAppConfig {
    let feed_cfg = PriceFeedConfig {
        source: Source::Binance,
        asset: "ETH".to_string(),
        url_pattern: "mock".to_string(),
        enabled: true,
        fail_count_warn: None,
    };
    ArbBotAppConfig {
        price_feeds: vec![("ETH".to_string(), vec![feed_cfg])],
        arb_bot_config: ArbBotConfig {
            time_diff: 1000,
            price_threshold: 1,
            qty: 10,
            enabled: true,
            lockout_period: 1000,
        },
    }
}

fn given_price_event(price: f64, timestamp: i64) -> PriceEvent {
    PriceEvent { price: ticks(price), timestamp }
}

fn eth() -> String {
    "ETH".to_string()
}

#[test]
fn test_init_and_collect_price() {
    // given
    let config = given_config();
    let mut bot = ArbBot::new(config);

    // when
    bot.collect_price(given_price_event(100.0, 12345), &"ETH".to_string(), &Source::Binance);

    let feed_id = format!("{}_{}", Source::Binance.name(), "ETH");
    assert_eq!(bot.state_len(), 1);
    assert_eq!(bot.price(&feed_id).unwrap().price, ticks(100.0));
    assert_eq!(bot.price(&feed_id).unwrap().timestamp, 12345);
}

#[test]
fn test_find_opportunities_no_events() {
    // given
    let config = given_config();

    // when
    let mut bot = ArbBot::new(config);

    // then
    assert_eq!(bot.take_opportunities(&"ETH".to_string()), None);
    assert_eq!(bot.balance_len(), 0);
}

#[test]
fn test_find_opportunities_no_opportunity_price_threshold_not_reached() {
    // given
    let config = given_config();
    let mut bot = ArbBot::new(config);

    // when
    bot.collect_price(given_price_event(100.0, 1000), &eth(), &Source::Binance);
    bot.collect_price(given_price_event(101.0, 1000), &eth(), &Source::Uniswap);

    // then
    assert_eq!(bot.take_opportunities(&eth()), None);
    assert_eq!(bot.balance_len(), 0);
}

#[test]
fn test_find_opportunities_no_opportunity_stale_trade() {
    // given
    let config = given_config();
    let mut bot = ArbBot::new(config);

    // when
    bot.collect_price(given_price_event(100.0, 1000), &eth(), &Source::Binance);
    bot.collect_price(given_price_event(102.0, 2001), &eth(), &Source::Uniswap);

    // then
    assert_eq!(bot.take_opportunities(&eth()), None);
    assert_eq!(bot.balance_len(), 0);
}

#[test]
fn test_find_opportunities_with_buy_opportunity() {
    // given
    let config = given_config();
    let mut bot = ArbBot::new(config);
    let cex_event = given_price_event(100.0, 1000);
    let dex_event = given_price_event(101.1, 1001);

    // when
    bot.collect_price(cex_event, &eth(), &Source::Binance);
    bot.collect_price(dex_event, &eth(), &Source::Uniswap);
    let result = bot.take_opportunities(&eth());

    // then
    assert_eq!(result, Some((ticks(100.0), 10, Side::BUY)));

    assert_eq!(bot.balance_len(), 1);
    assert_eq!(bot.balance(&eth()), Some(10));
}

#[test]
fn test_find_opportunities_with_sell_opportunity() {
    // given
    let config = given_config();
    let mut bot = ArbBot::new(config);
    let cex_event = given_price_event(102.0, 1000);
    let dex_event = given_price_event(100.0, 1001);

    // when
    bot.collect_price(cex_event, &eth(), &Source::Binance);
    bot.collect_price(dex_event, &eth(), &Source::Uniswap);
    let result = bot.take_opportunities(&eth());

    // then
    assert_eq!(result, Some((ticks(102.0), 10, Side::SELL)));

    assert_eq!(bot.balance_len(), 1);
    assert_eq!(bot.balance(&eth()), Some(-10));
}

#[test]
fn test_find_opportunities_with_opportunity_lockout() {
    // given
    let config = given_config();
    let mut bot = ArbBot::new(config);
    let cex_event = given_price_event(100.0, 1000);
    let dex_event = given_price_event(101.1, 1001);

    // when
    bot.collect_price(cex_event, &eth(), &Source::Binance);
    bot.collect_price(dex_event, &eth(), &Source::Uniswap);

    // then
    assert_eq!(bot.take_opportunities(&eth()), Some((ticks(100.0), 10, Side::BUY)));
    assert_eq!(bot.take_opportunities(&eth()), None);

    assert_eq!(bot.balance(&eth()), Some(10));
}

#[test]
fn test_find_opportunities_with_opportunity_after_lockout() {
    // given
    let config = given_config();
    let mut bot = ArbBot::new(config);
    let cex_event = given_price_event(100.0, 1000);
    let dex_event = given_price_event(101.1, 1001);
    let start: i64 = 1_700_000_000_000;

    // when
    bot.collect_price(cex_event, &eth(), &Source::Binance);
    bot.collect_price(dex_event, &eth(), &Source::Uniswap);
    assert_eq!(bot.take_opportunities_at(&eth(), start), Some((ticks(100.0), 10, Side::BUY)));

    // and: the lockout period has passed
    let later = start + 1001;

    // then
    assert_eq!(bot.take_opportunities_at(&eth(), later), Some((ticks(100.0), 10, Side::BUY)));

    assert_eq!(bot.balance(&eth()), Some(20));
}

#[test]
fn lockout_ends_exactly_after_the_period() {
    let mut bot = ArbBot::new(given_config());
    bot.collect_price(given_price_event(100.0, 1000), &eth(), &Source::Binance);
    bot.collect_price(given_price_event(101.1, 1001), &eth(), &Source::Uniswap);
    assert!(bot.take_opportunities_at(&eth(), 5000).is_some());
    assert_eq!(bot.take_opportunities_at(&eth(), 5999), None);
    assert!(bot.take_opportunities_at(&eth(), 6000).is_some());
    assert_eq!(bot.balance(&eth()), Some(20));
}

#[test]
fn disabled_bot_never_trades() {
    let mut config = given_config();
    config.arb_bot_config.enabled = false;
    let mut bot = ArbBot::new(config);
    bot.collect_price(given_price_event(100.0, 1000), &eth(), &Source::Binance);
    bot.collect_price(given_price_event(200.0, 1000), &eth(), &Source::Uniswap);
    assert_eq!(bot.take_opportunities_at(&eth(), 0), None);
    assert_eq!(bot.balance_len(), 0);
}

#[test]
fn threshold_is_inclusive() {
    // a difference of exactly one percent of the larger price trades
    let mut bot = ArbBot::new(given_config());
    bot.collect_price(given_price_event(99.0, 1000), &eth(), &Source::Binance);
    bot.collect_price(given_price_event(100.0, 1000), &eth(), &Source::Uniswap);
    assert_eq!(bot.take_opportunities_at(&eth(), 0), Some((ticks(99.0), 10, Side::BUY)));
}

#[test]
fn prices_exactly_time_diff_apart_trade() {
    let mut bot = ArbBot::new(given_config());
    bot.collect_price(given_price_event(100.0, 1000), &eth(), &Source::Binance);
    bot.collect_price(given_price_event(110.0, 2000), &eth(), &Source::Uniswap);
    assert_eq!(bot.take_opportunities_at(&eth(), 0), Some((ticks(100.0), 10, Side::BUY)));
}

#[test]
fn feed_ids_and_reconfiguration() {
    let mut bot = ArbBot::new(given_config());
    assert_eq!(feed_id(&Source::Uniswap, &eth()), "Uniswap_ETH");
    assert!(bot.feed_config(&"Binance_ETH".to_string()).is_some());
    bot.collect_price(given_price_event(100.0, 1), &eth(), &Source::Binance);
    bot.collect_price(given_price_event(100.0, 1), &eth(), &Source::Uniswap);
    assert_eq!(bot.state_len(), 2);
    // a configuration without the Uniswap feed drops its price
    let mut cfg = given_config();
    cfg.arb_bot_config.qty = 3;
    bot.init(cfg);
    assert_eq!(bot.state_len(), 1);
    assert!(bot.price(&"Uniswap_ETH".to_string()).is_none());
    assert_eq!(bot.config().qty, 3);
}

#[test]
fn arb_processor_messages() {
    let mut bot = ArbBot::new(given_config());
    let mut latch = StopLatch::new();
    let r = handle_message(
        &mut bot,
        &mut latch,
        ProcessorMessage::Price(given_price_event(100.0, 1000), eth(), Source::Binance),
    );
    assert_eq!(r, None);
    let r = handle_message(
        &mut bot,
        &mut latch,
        ProcessorMessage::Price(given_price_event(101.1, 1001), eth(), Source::Uniswap),
    );
    assert_eq!(r, Some((ticks(100.0), 10, Side::BUY)));
    assert!(!latch.should_exit(true));
    assert_eq!(handle_message(&mut bot, &mut latch, ProcessorMessage::Stop), None);
    assert!(!latch.should_exit(false));
    assert!(latch.should_exit(true));
    let mut cfg = given_config();
    cfg.arb_bot_config.enabled = false;
    assert_eq!(handle_message(&mut bot, &mut latch, ProcessorMessage::ConfigChange(cfg)), None);
    assert!(!bot.config().enabled);
}

#[test]
fn equal_prices_never_trade() {
    let mut bot = ArbBot::new(given_config());
    bot.collect_price(given_price_event(100.0, 1000), &eth(), &Source::Binance);
    bot.collect_price(given_price_event(100.0, 1000), &eth(), &Source::Uniswap);
    assert_eq!(bot.take_opportunities_at(&eth(), 0), None);
    assert_eq!(bot.balance_len(), 0);
}

#[test]
fn applying_a_config_twice_changes_nothing() {
    let mut bot = ArbBot::new(given_config());
    bot.collect_price(given_price_event(100.0, 1), &eth(), &Source::Binance);
    bot.init(given_config());
    bot.init(given_config());
    assert_eq!(bot.state_len(), 1);
    assert_eq!(bot.price(&"Binance_ETH".to_string()).unwrap().price, ticks(100.0));
    assert_eq!(bot.config().qty, 10);
}

#[test]
fn trades_are_booked_only_within_i64() {
    let bot = ArbBot::new(given_config());
    assert!(bot.trade_settles(&eth(), &(1, 10, Side::BUY)));
    assert!(bot.trade_settles(&eth(), &(1, 10, Side::SELL)));
    assert!(bot.trade_settles(&eth(), &(1, i64::MIN, Side::BUY)));
    assert!(!bot.trade_settles(&eth(), &(1, i64::MIN, Side::SELL)));
    assert!(bot.trade_settles(&eth(), &(1, i64::MAX, Side::SELL)));
}

#[test]
fn disabled_bot_with_extreme_qty_looks_without_trading() {
    let mut cfg = given_config();
    cfg.arb_bot_config.enabled = false;
    cfg.arb_bot_config.qty = i64::MIN;
    let mut bot = ArbBot::new(cfg);
    assert_eq!(bot.take_opportunities_at(&eth(), 0), None);
    assert_eq!(bot.peek_opportunity_at(&eth(), 0), None);
}

#[test]
fn peek_matches_take() {
    let mut bot = ArbBot::new(given_config());
    bot.collect_price(given_price_event(102.0, 1000), &eth(), &Source::Binance);
    bot.collect_price(given_price_event(100.0, 1001), &eth(), &Source::Uniswap);
    let peeked = bot.peek_opportunity_at(&eth(), 7);
    assert_eq!(peeked, Some((ticks(102.0), 10, Side::SELL)));
    assert_eq!(bot.balance_len(), 0);
    assert_eq!(bot.take_opportunities_at(&eth(), 7), peeked);
    assert_eq!(bot.peek_opportunity_at(&eth(), 8), None);
}
