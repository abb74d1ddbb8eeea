use rust_arb_bot::app_config::{AppConfig, FeedConfig, OrderBookCollectorConfig};
use rust_arb_bot::control::{Control, TaskState, PAUSE, RUN, STOP};
use rust_arb_bot::order_book_collector::Source;
use rust_arb_bot::order_book_feed::{
    fetch_step, FeedErr, FeedTaskTable, FetchStep, PriceFeedManagerMessage, TaskCommand, UniswapFeed,
};

fn feed(source: Source, enabled: bool) -> FeedConfig {
    FeedConfig { source, url_pattern: "wss://x".to_string(), enabled }
}

#[test]
fn new_feeds_start_tasks() {
    let mut table = FeedTaskTable::new();
    let cmds = table.apply_config(&vec![feed(Source::Binance, true), feed(Source::Uniswap, false)]);
    assert_eq!(cmds.len(), 2);
    assert!(matches!(&cmds[0], TaskCommand::Start(f) if f.source == Source::Binance && f.enabled));
    assert!(matches!(&cmds[1], TaskCommand::Start(f) if f.source == Source::Uniswap && !f.enabled));
    assert_eq!(table.task_state(Source::Binance), Some(TaskState::Running));
    assert_eq!(table.task_state(Source::Uniswap), Some(TaskState::Paused));
}

#[test]
fn known_feeds_set_state_and_removed_ones_stop() {
    let mut table = FeedTaskTable::new();
    table.apply_config(&vec![feed(Source::Binance, true), feed(Source::Uniswap, true)]);
    let cmds = table.apply_config(&vec![feed(Source::Binance, false)]);
    assert_eq!(cmds.len(), 2);
    assert!(matches!(cmds[0], TaskCommand::SetState(Source::Binance, TaskState::Paused)));
    assert!(matches!(cmds[1], TaskCommand::Stop(Source::Uniswap)));
    assert_eq!(table.task_state(Source::Binance), Some(TaskState::Paused));
    assert_eq!(table.task_state(Source::Uniswap), None);
}

#[test]
fn duplicate_feed_sets_state_of_its_own_task() {
    let mut table = FeedTaskTable::new();
    let cmds = table.apply_config(&vec![feed(Source::Binance, true), feed(Source::Binance, false)]);
    assert_eq!(cmds.len(), 2);
    assert!(matches!(&cmds[0], TaskCommand::Start(_)));
    assert!(matches!(cmds[1], TaskCommand::SetState(Source::Binance, TaskState::Paused)));
    assert_eq!(table.task_state(Source::Binance), Some(TaskState::Paused));
}

#[test]
fn reapplying_starts_nothing() {
    let mut table = FeedTaskTable::new();
    let feeds = vec![feed(Source::Binance, true), feed(Source::Uniswap, false)];
    table.apply_config(&feeds);
    let cmds = table.apply_config(&feeds);
    assert!(cmds.iter().all(|c| matches!(c, TaskCommand::SetState(_, _))));
    assert_eq!(table.task_state(Source::Binance), Some(TaskState::Running));
}

#[test]
fn stop_all_stops_every_task() {
    let mut table = FeedTaskTable::new();
    table.apply_config(&vec![feed(Source::Binance, true), feed(Source::Uniswap, true)]);
    let cmds = table.stop_all();
    assert_eq!(cmds.len(), 2);
    assert!(cmds.iter().all(|c| matches!(c, TaskCommand::SetState(_, TaskState::Stopped))));
    assert_eq!(table.task_state(Source::Binance), Some(TaskState::Stopped));
    assert_eq!(table.task_state(Source::Uniswap), Some(TaskState::Stopped));
}

#[test]
fn fetch_steps_follow_flag() {
    assert_eq!(fetch_step(RUN), FetchStep::Fetch);
    assert_eq!(fetch_step(PAUSE), FetchStep::Wait);
    assert_eq!(fetch_step(STOP), FetchStep::Exit);
    assert_eq!(fetch_step(7), FetchStep::Fetch);
}

#[test]
fn flags_round_trip() {
    for s in [TaskState::Running, TaskState::Paused, TaskState::Stopped] {
        assert_eq!(TaskState::from_flag(s.to_flag()), s);
    }
    assert_eq!(TaskState::for_enabled(true), TaskState::Running);
    assert_eq!(TaskState::for_enabled(false), TaskState::Paused);
}

#[test]
fn control_switches() {
    let c = Control::new();
    assert!(!c.is_stopped());
    assert!(!c.is_paused());
    c.pause();
    assert!(c.is_paused());
    assert!(!c.is_stopped());
    c.stop();
    assert!(c.is_stopped());
    assert!(!c.is_paused());
}

#[test]
fn uniswap_order_book_is_empty() {
    let b = UniswapFeed::new().book_at(42);
    assert_eq!(b.source, Source::Uniswap);
    assert_eq!(b.asset, "BTCUSDT");
    assert_eq!(b.timestamp, 42);
    assert!(b.bids.is_empty() && b.asks.is_empty());
}

#[test]
fn feed_error_keeps_fields() {
    let e = FeedErr::new(Some(503), "down".to_string());
    assert_eq!(e.code, Some(503));
    assert_eq!(e.message, "down");
}

fn app_config(feeds: Vec<FeedConfig>) -> AppConfig {
    AppConfig { feeds, ob_collector_config: OrderBookCollectorConfig { time_diff: 1000, enabled: true } }
}

#[test]
fn manager_messages_apply_config_then_stop() {
    let mut table = FeedTaskTable::new();
    let cmds = table.handle(PriceFeedManagerMessage::ConfigChange(app_config(vec![
        feed(Source::Binance, true),
        feed(Source::Uniswap, false),
    ])));
    assert_eq!(cmds.len(), 2);
    assert!(matches!(&cmds[0], TaskCommand::Start(f) if f.source == Source::Binance));
    assert_eq!(table.task_state(Source::Uniswap), Some(TaskState::Paused));
    let cmds = table.handle(PriceFeedManagerMessage::ConfigChange(app_config(vec![feed(Source::Uniswap, true)])));
    assert_eq!(cmds.len(), 2);
    assert!(matches!(cmds[0], TaskCommand::SetState(Source::Uniswap, TaskState::Running)));
    assert!(matches!(cmds[1], TaskCommand::Stop(Source::Binance)));
    let cmds = table.handle(PriceFeedManagerMessage::Stop);
    assert_eq!(cmds.len(), 1);
    assert!(matches!(cmds[0], TaskCommand::SetState(Source::Uniswap, TaskState::Stopped)));
    assert_eq!(table.task_state(Source::Uniswap), Some(TaskState::Stopped));
    assert_eq!(table.task_state(Source::Binance), None);
    // a second stop keeps the same task, stopped
    let cmds = table.handle(PriceFeedManagerMessage::Stop);
    assert_eq!(cmds.len(), 1);
    assert_eq!(table.task_state(Source::Uniswap), Some(TaskState::Stopped));
}

#[test]
fn fetch_task_run_waits_while_paused_and_ends_at_stop() {
    let flags = [TaskState::Paused.to_flag(), RUN, PAUSE, RUN, STOP, RUN];
    let mut steps = Vec::new();
    for f in flags {
        let s = fetch_step(f);
        steps.push(s);
        if s == FetchStep::Exit {
            break;
        }
    }
    assert_eq!(
        steps,
        vec![FetchStep::Wait, FetchStep::Fetch, FetchStep::Wait, FetchStep::Fetch, FetchStep::Exit]
    );
    assert_eq!(fetch_step(TaskState::for_enabled(true).to_flag()), FetchStep::Fetch);
    assert_eq!(fetch_step(TaskState::for_enabled(false).to_flag()), FetchStep::Wait);
}
