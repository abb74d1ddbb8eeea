use crate::app_config::{
    feeds_by_source, AppConfig, AppConfigView, FeedConfig, FeedConfigView,
    OrderBookCollectorConfig,
};
use crate::assoc_map::{AssocMap, MapKey};
use crate::clock::{millis_of, Clock};
use crate::worker::StopLatch;
use std::sync::Arc;
use vstd::prelude::*;

verus! {

/// A venue that order books come from.
#[derive(Debug, Clone, Copy, PartialEq, Eq, Hash, Structural)]
pub enum Source {
    Binance,
    Uniswap,
}

impl View for Source {
    type V = Source;

    open spec fn view(&self) -> Source {
        *self
    }
}

impl MapKey for Source {
    fn same_key(&self, other: &Self) -> (r: bool) {
        *self == *other
    }

    fn copy_key(&self) -> (r: Self) {
        *self
    }
}

impl Source {
    pub open spec fn name_of(self) -> Seq<char> {
        match self {
            Source::Binance => "Binance"@,
            Source::Uniswap => "Uniswap"@,
        }
    }

    /// The name of the venue, as it is written in logs and feed ids.
    pub fn name(&self) -> (r: String)
        ensures
            r@ == self.name_of(),
    {
        match self {
            Source::Binance => String::from_str("Binance"),
            Source::Uniswap => String::from_str("Uniswap"),
        }
    }
}

pub type Asset = String;

#[derive(Debug, Clone, Copy, PartialEq, Eq, Structural)]
pub enum Side {
    BUY,
    SELL,
}

/// One level of an order book. Prices and quantities are fixed-point numbers with
/// eight decimal places (see `crate::decimal::SCALE`).
#[derive(Debug, Clone, Copy, PartialEq, Eq, Structural)]
pub struct OrderBookLevel {
    pub price: u64,
    pub qty: u64,
}

#[derive(Debug, Clone)]
pub struct OrderBook {
    pub source: Source,
    pub asset: Asset,
    pub timestamp: i64,
    /// sorted descending by price
    pub bids: Vec<OrderBookLevel>,
    /// sorted ascending by price
    pub asks: Vec<OrderBookLevel>,
}

/// Whether a book stamped `timestamp` is recent enough at `now` to be collected.
pub open spec fn is_fresh(config: OrderBookCollectorConfig, timestamp: i64, now: i64) -> bool {
    now - timestamp <= config.time_diff
}

/// The books after `book` is stored under its source and asset.
pub open spec fn store_book(
    state: Map<Source, Map<Seq<char>, OrderBook>>,
    book: OrderBook,
) -> Map<Source, Map<Seq<char>, OrderBook>> {
    let inner = if state.contains_key(book.source) {
        state[book.source]
    } else {
        Map::empty()
    };
    state.insert(book.source, inner.insert(book.asset@, book))
}

pub struct OrderBookCollectorView {
    pub feed_config: Map<Source, FeedConfigView>,
    pub config: OrderBookCollectorConfig,
    pub state: Map<Source, Map<Seq<char>, OrderBook>>,
}

/// The state after a configuration is applied: the feeds of the configuration, the books
/// of the sources that it still has, and its collector settings.
pub open spec fn configured(
    v: OrderBookCollectorView,
    config: AppConfigView,
) -> OrderBookCollectorView {
    let feeds = feeds_by_source(config.feeds);
    OrderBookCollectorView {
        feed_config: feeds,
        config: config.ob_collector_config,
        state: v.state.restrict(feeds.dom()),
    }
}

/// The state after a book is offered at `now`.
pub open spec fn collected(
    v: OrderBookCollectorView,
    book: OrderBook,
    now: i64,
) -> OrderBookCollectorView {
    if is_fresh(v.config, book.timestamp, now) {
        OrderBookCollectorView { state: store_book(v.state, book), ..v }
    } else {
        v
    }
}

/// Keeps the latest order book of every source and asset.
pub struct OrderBookCollector<C: Clock> {
    feed_config: AssocMap<Source, FeedConfig>,
    config: OrderBookCollectorConfig,
    state: AssocMap<Source, AssocMap<Asset, OrderBook>>,
    clock: Arc<C>,
}

impl<C: Clock> View for OrderBookCollector<C> {
    type V = OrderBookCollectorView;

    closed spec fn view(&self) -> OrderBookCollectorView {
        OrderBookCollectorView {
            feed_config: self.feed_config@.map_values(|f: FeedConfig| f@),
            config: self.config,
            state: self.state@.map_values(|m: AssocMap<Asset, OrderBook>| m@),
        }
    }
}

impl<C: Clock> OrderBookCollector<C> {
    pub closed spec fn wf(&self) -> bool {
        &&& self.feed_config.wf()
        &&& self.state.wf()
        &&& forall|s: Source| #[trigger] self.state@.contains_key(s) ==> self.state@[s].wf()
    }

    /// The reading of the collector's clock, where it always gives the same one.
    pub closed spec fn clock_reading(&self) -> Option<i64> {
        (*self.clock).fixed_reading()
    }

    /// A collector with no books, configured by `cfg`.
    pub fn new(cfg: AppConfig, clock: Arc<C>) -> (r: Self)
        ensures
            r.wf(),
            r@ == configured(
                OrderBookCollectorView {
                    feed_config: Map::empty(),
                    config: OrderBookCollectorConfig { time_diff: 1000, enabled: true },
                    state: Map::empty(),
                },
                cfg@,
            ),
            r.clock_reading() == (*clock).fixed_reading(),
    {
        let mut collector = OrderBookCollector {
            feed_config: AssocMap::new(),
            config: OrderBookCollectorConfig::default(),
            state: AssocMap::new(),
            clock,
        };
        proof {
            assert(collector@.feed_config =~= Map::empty());
            assert(collector@.state =~= Map::empty());
        }
        collector.init(cfg);
        collector
    }

    /// Applies a configuration: feeds of the configuration replace the known ones, the books
    /// of sources that are no longer configured are dropped.
    pub fn init(&mut self, config: AppConfig)
        requires
            old(self).wf(),
        ensures
            final(self).wf(),
            final(self)@ == configured(old(self)@, config@),
            final(self).clock_reading() == old(self).clock_reading(),
    {
        let ghost feeds = config@.feeds;
        let ghost old_fc = self.feed_config@;
        let mut new_config: AssocMap<Source, FeedConfig> = AssocMap::new();
        let n = config.feeds.len();
        let mut i: usize = 0;
        while i < n
            invariant
                n == config.feeds@.len(),
                feeds == config@.feeds,
                i <= n,
                new_config.wf(),
                self.wf(),
                self.clock == old(self).clock,
                self.state == old(self).state,
                self.config == old(self).config,
                new_config@.map_values(|f: FeedConfig| f@) == feeds_by_source(feeds.take(i as int)),
                forall|s: Source| #[trigger]
                    self.feed_config@.contains_key(s) == (old_fc.contains_key(s)
                        || new_config@.contains_key(s)),
                forall|s: Source| #[trigger]
                    new_config@.contains_key(s) ==> self.feed_config@[s]@ == new_config@[s]@,
            decreases n - i,
        {
            let cfg = &config.feeds[i];
            let key = cfg.key();
            new_config.insert(key, cfg.duplicate());
            let skip = match self.feed_config.get(&key) {
                Some(existing) => existing.same_as(cfg),
                None => false,
            };
            if !skip {
                self.feed_config.insert(key, cfg.duplicate());
            }
            proof {
                assert(feeds.take(i + 1).drop_last() =~= feeds.take(i as int));
                assert(feeds.take(i + 1).last() == feeds[i as int]);
                assert(feeds[i as int] == cfg@);
                assert(new_config@.map_values(|f: FeedConfig| f@) =~= feeds_by_source(
                    feeds.take(i + 1),
                ));
            }
            i = i + 1;
        }
        self.feed_config.retain_keys(&new_config);
        self.state.retain_keys(&new_config);
        self.config = config.ob_collector_config;
        proof {
            assert(feeds.take(n as int) =~= feeds);
            let fb = feeds_by_source(feeds);
            assert(new_config@.dom() =~= fb.dom()) by {
                assert forall|s: Source| new_config@.dom().contains(s) == fb.dom().contains(s) by {
                    assert(new_config@.map_values(|f: FeedConfig| f@).dom().contains(s)
                        == new_config@.dom().contains(s));
                }
            }
            assert(self@.feed_config =~= fb) by {
                assert forall|s: Source| #[trigger] self@.feed_config.contains_key(s) implies
                    self@.feed_config[s] == fb[s] by {
                    assert(self.feed_config@[s]@ == new_config@[s]@);
                }
            }
            assert(self@.state =~= old(self)@.state.restrict(fb.dom()));
        }
    }

    /// Stores `book` where it is recent enough at `now`; the result tells whether it was.
    pub fn collect_order_book_at(&mut self, book: OrderBook, now: i64) -> (r: bool)
        requires
            old(self).wf(),
        ensures
            final(self).wf(),
            r == is_fresh(old(self)@.config, book.timestamp, now),
            final(self)@ == collected(old(self)@, book, now),
            final(self).clock_reading() == old(self).clock_reading(),
    {
        let age = (now as i128) - (book.timestamp as i128);
        if age > self.config.time_diff as i128 {
            return false;
        }
        let source = book.source;
        let asset = book.asset.clone();
        let ghost prev = self@;
        let mut inner = match self.state.remove(&source) {
            Some(m) => m,
            None => AssocMap::new(),
        };
        inner.insert(asset, book);
        self.state.insert(source, inner);
        proof {
            assert(self@.state =~= store_book(prev.state, book));
        }
        true
    }

    /// Stores `book` where it is recent enough by the collector's clock; the result tells
    /// whether it was.
    pub fn collect_order_book(&mut self, book: OrderBook) -> (r: bool)
        requires
            old(self).wf(),
        ensures
            final(self).wf(),
            exists|now: i64|
                {
                    &&& r == is_fresh(old(self)@.config, book.timestamp, now)
                    &&& final(self)@ == collected(old(self)@, book, now)
                    &&& (old(self).clock_reading() matches Some(t) ==> now == t)
                    &&& (old(self).clock_reading() is None ==> exists|us: Option<u128>|
                        now == millis_of(us))
                },
            final(self).clock_reading() == old(self).clock_reading(),
    {
        let now = self.clock.current_timestamp();
        self.collect_order_book_at(book, now)
    }

    /// The latest book of `source` and `asset`.
    pub fn order_book(&self, source: Source, asset: &Asset) -> (r: Option<&OrderBook>)
        requires
            self.wf(),
        ensures
            r is Some == (self@.state.contains_key(source) && self@.state[source].contains_key(
                asset@,
            )),
            r matches Some(b) ==> *b == self@.state[source][asset@],
    {
        match self.state.get(&source) {
            Some(m) => m.get(asset),
            None => None,
        }
    }

    /// The number of sources that have books.
    pub fn state_len(&self) -> (r: usize)
        requires
            self.wf(),
        ensures
            r == self@.state.len(),
    {
        proof {
            assert(self@.state.dom() =~= self.state@.dom());
        }
        self.state.len()
    }

    /// Whether no source has books.
    pub fn state_is_empty(&self) -> (r: bool)
        requires
            self.wf(),
        ensures
            r == (self@.state.len() == 0),
    {
        proof {
            assert(self@.state.dom() =~= self.state@.dom());
        }
        self.state.is_empty()
    }

    /// The feed configured for `source`.
    pub fn feed_config(&self, source: Source) -> (r: Option<&FeedConfig>)
        requires
            self.wf(),
        ensures
            r is Some == self@.feed_config.contains_key(source),
            r matches Some(f) ==> f@ == self@.feed_config[source],
    {
        self.feed_config.get(&source)
    }

    pub fn config(&self) -> (r: OrderBookCollectorConfig)
        ensures
            r == self@.config,
    {
        self.config
    }
}

/// A message to the order book processor.
pub enum ProcessorMessage {
    OrderBook(OrderBook),
    ConfigChange(AppConfig),
    Stop,
}

/// Handles one message of the processor's queue: a book is offered to the collector, a
/// configuration is applied to it, a stop is latched.
pub fn handle_message<C: Clock>(
    collector: &mut OrderBookCollector<C>,
    latch: &mut StopLatch,
    msg: ProcessorMessage,
)
    requires
        old(collector).wf(),
    ensures
        final(collector).wf(),
        final(collector).clock_reading() == old(collector).clock_reading(),
        match msg {
            ProcessorMessage::OrderBook(book) => {
                &&& exists|now: i64|
                    final(collector)@ == collected(old(collector)@, book, now) && (old(
                        collector,
                    ).clock_reading() matches Some(t) ==> now == t) && (old(
                        collector,
                    ).clock_reading() is None ==> exists|us: Option<u128>| now == millis_of(us))
                &&& final(latch).stop_requested == old(latch).stop_requested
            },
            ProcessorMessage::ConfigChange(cfg) => {
                &&& final(collector)@ == configured(old(collector)@, cfg@)
                &&& final(latch).stop_requested == old(latch).stop_requested
            },
            ProcessorMessage::Stop => {
                &&& final(collector)@ == old(collector)@
                &&& final(latch).stop_requested
            },
        },
{
    match msg {
        ProcessorMessage::OrderBook(book) => {
            collector.collect_order_book(book);
        },
        ProcessorMessage::ConfigChange(cfg) => {
            collector.init(cfg);
        },
        ProcessorMessage::Stop => {
            latch.request_stop();
        },
    }
}

/// The state after one message of the processor's queue, a book being offered at `now`.
pub open spec fn message_effect(
    v: OrderBookCollectorView,
    msg: ProcessorMessage,
    now: i64,
) -> OrderBookCollectorView {
    match msg {
        ProcessorMessage::OrderBook(book) => collected(v, book, now),
        ProcessorMessage::ConfigChange(cfg) => configured(v, cfg@),
        ProcessorMessage::Stop => v,
    }
}

/// The state after the messages, in order, the `i`-th being handled at `nows[i]`.
pub open spec fn queue_effect(
    v: OrderBookCollectorView,
    msgs: Seq<ProcessorMessage>,
    nows: Seq<i64>,
) -> OrderBookCollectorView
    decreases msgs.len(),
{
    if msgs.len() == 0 {
        v
    } else {
        message_effect(queue_effect(v, msgs.drop_last(), nows.drop_last()), msgs.last(), nows.last())
    }
}

/// Whether a stop is among the messages.
pub open spec fn has_stop(msgs: Seq<ProcessorMessage>) -> bool {
    exists|i: int| 0 <= i < msgs.len() && #[trigger] msgs[i] is Stop
}

/// Handles the queued messages in order, those after a stop included: the collector ends
/// as the messages leave it, each book being offered at a reading of its clock, and a stop
/// among them is latched.
pub fn process_queue<C: Clock>(
    collector: &mut OrderBookCollector<C>,
    latch: &mut StopLatch,
    queue: Vec<ProcessorMessage>,
)
    requires
        old(collector).wf(),
    ensures
        final(collector).wf(),
        final(collector).clock_reading() == old(collector).clock_reading(),
        exists|nows: Seq<i64>|
            {
                &&& nows.len() == queue@.len()
                &&& final(collector)@ == queue_effect(old(collector)@, queue@, nows)
                &&& (old(collector).clock_reading() matches Some(t) ==> forall|i: int|
                    0 <= i < nows.len() ==> #[trigger] nows[i] == t)
                &&& (old(collector).clock_reading() is None ==> forall|i: int|
                    0 <= i < nows.len() ==> exists|us: Option<u128>| #[trigger] nows[i]
                        == millis_of(us))
            },
        final(latch).stop_requested == (old(latch).stop_requested || has_stop(queue@)),
{
    let ghost all = queue@;
    let ghost reading = collector.clock_reading();
    let ghost mut nows: Seq<i64> = Seq::empty();
    let mut rest = queue;
    let n = rest.len();
    let mut i: usize = 0;
    while i < n
        invariant
            n == all.len(),
            i <= n,
            rest@ == all.skip(i as int),
            collector.wf(),
            collector.clock_reading() == reading,
            reading == old(collector).clock_reading(),
            nows.len() == i,
            collector@ == queue_effect(old(collector)@, all.take(i as int), nows),
            reading matches Some(t) ==> forall|j: int| 0 <= j < nows.len() ==> #[trigger] nows[j] == t,
            reading is None ==> forall|j: int|
                0 <= j < nows.len() ==> exists|us: Option<u128>| #[trigger] nows[j] == millis_of(us),
            latch.stop_requested == (old(latch).stop_requested || has_stop(all.take(i as int))),
        decreases n - i,
    {
        let msg = rest.remove(0);
        let ghost before = collector@;
        let ghost m = msg;
        proof {
            assert(msg == all[i as int]);
            assert(rest@ =~= all.skip(i + 1));
        }
        handle_message(collector, latch, msg);
        proof {
            let now: i64 = match m {
                ProcessorMessage::OrderBook(book) => choose|now: i64|
                    collector@ == collected(before, book, now) && (reading matches Some(t)
                        ==> now == t) && (reading is None ==> exists|us: Option<u128>| now
                        == millis_of(us)),
                _ => match reading {
                    Some(t) => t,
                    None => 0,
                },
            };
            let nows2 = nows.push(now);
            let t1 = all.take(i + 1);
            assert(t1.drop_last() =~= all.take(i as int));
            assert(nows2.drop_last() =~= nows);
            assert(collector@ == message_effect(before, m, now));
            assert(has_stop(t1) == (has_stop(all.take(i as int)) || m is Stop)) by {
                if m is Stop {
                    assert(t1[i as int] is Stop);
                }
                if has_stop(t1) && !(m is Stop) {
                    let k = choose|k: int| 0 <= k < t1.len() && #[trigger] t1[k] is Stop;
                    assert(all.take(i as int)[k] is Stop);
                }
                if has_stop(all.take(i as int)) {
                    let k = choose|k: int| 0 <= k < i && #[trigger] all.take(i as int)[k] is Stop;
                    assert(t1[k] is Stop);
                }
            }
            if reading is None {
                if !(m is OrderBook) {
                    assert(now == millis_of(None));
                }
                assert forall|j: int| 0 <= j < nows2.len() implies exists|us: Option<u128>|
                    #[trigger] nows2[j] == millis_of(us) by {
                    if j < nows.len() {
                        assert(nows2[j] == nows[j]);
                    }
                }
            }
            nows = nows2;
        }
        i = i + 1;
    }
    proof {
        assert(all.take(n as int) =~= all);
    }
}

/// A book that is recent enough is the one that is then held for its source and asset.
pub proof fn lemma_fresh_book_is_stored(v: OrderBookCollectorView, book: OrderBook, now: i64)
    requires
        is_fresh(v.config, book.timestamp, now),
    ensures
        collected(v, book, now).state.contains_key(book.source),
        collected(v, book, now).state[book.source].contains_key(book.asset@),
        collected(v, book, now).state[book.source][book.asset@] == book,
{
}

/// A book that is too old changes nothing.
pub proof fn lemma_stale_book_is_dropped(v: OrderBookCollectorView, book: OrderBook, now: i64)
    requires
        !is_fresh(v.config, book.timestamp, now),
    ensures
        collected(v, book, now) == v,
{
}

/// Storing a book leaves the books of every other source and asset as they were.
pub proof fn lemma_other_books_kept(
    v: OrderBookCollectorView,
    book: OrderBook,
    now: i64,
    source: Source,
    asset: Seq<char>,
)
    requires
        source != book.source || asset != book.asset@,
        v.state.contains_key(source),
        v.state[source].contains_key(asset),
    ensures
        collected(v, book, now).state.contains_key(source),
        collected(v, book, now).state[source].contains_key(asset),
        collected(v, book, now).state[source][asset] == v.state[source][asset],
{
}

/// Applying a configuration a second time changes nothing.
pub proof fn lemma_configure_idempotent(v: OrderBookCollectorView, config: AppConfigView)
    ensures
        configured(configured(v, config), config) == configured(v, config),
{
    let feeds = feeds_by_source(config.feeds);
    assert(v.state.restrict(feeds.dom()).restrict(feeds.dom()) =~= v.state.restrict(feeds.dom()));
}

/// After a configuration is applied, only its sources have books.
pub proof fn lemma_configured_books_are_configured(
    v: OrderBookCollectorView,
    config: AppConfigView,
)
    ensures
        configured(v, config).state.dom().subset_of(configured(v, config).feed_config.dom()),
{
}

} // verus!
