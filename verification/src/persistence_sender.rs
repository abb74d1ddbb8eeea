use crate::app_config::AppConfig;
use crate::order_book_collector::{OrderBook, Source};
use vstd::prelude::*;

verus! {

/// A message to the persister.
pub enum PersisterMessage {
    OrderBook(OrderBook, Source),
    ConfigChange(AppConfig),
    Stop,
}

} // verus!
