pub mod app_config;
pub mod arb_bot;
pub mod assoc_map;
pub mod binance_order_book_feed;
pub mod clock;
pub mod control;
pub mod decimal;
pub mod index_collector;
pub mod order_book_collector;
pub mod order_book_feed;
pub mod persistence_sender;
pub mod price_feed;
pub mod web_state;
pub mod worker;
