use crate::assoc_map::{AssocMap, MapKey};
use crate::clock::{millis_of, Clock, SystemClock};
use crate::price_feed::PriceEvent;
use crate::worker::StopLatch;
use vstd::prelude::*;

verus! {

/// A venue whose prices the bot compares.
#[derive(Debug, Clone, Copy, PartialEq, Eq, Hash, Structural)]
pub enum Source {
    Binance,
    Uniswap,
}

impl View for Source {
    type V = Source;

    open spec fn view(&self) -> Source {
        *self
    }
}

impl MapKey for Source {
    fn same_key(&self, other: &Self) -> (r: bool) {
        *self == *other
    }

    fn copy_key(&self) -> (r: Self) {
        *self
    }
}

impl Source {
    pub open spec fn name_of(self) -> Seq<char> {
        match self {
            Source::Binance => "Binance"@,
            Source::Uniswap => "Uniswap"@,
        }
    }

    /// The name of the venue, as it is written in feed ids.
    pub fn name(&self) -> (r: String)
        ensures
            r@ == self.name_of(),
    {
        match self {
            Source::Binance => String::from_str("Binance"),
            Source::Uniswap => String::from_str("Uniswap"),
        }
    }
}

pub type Asset = String;

pub type FeedId = String;

/// The side that the bot takes on the centralised venue.
#[derive(Debug, Clone, Copy, PartialEq, Eq, Structural)]
pub enum Side {
    BUY,
    SELL,
}

/// The id of the feed of `asset` on `source`: the source's name, `_`, the asset.
pub open spec fn feed_key(source: Source, asset: Seq<char>) -> Seq<char> {
    source.name_of() + "_"@ + asset
}

/// The id of the feed of `asset` on `source`.
pub fn feed_id(source: &Source, asset: &Asset) -> (r: FeedId)
    ensures
        r@ == feed_key(*source, asset@),
{
    source.name().concat("_").concat(asset.as_str())
}

/// One price feed of an asset.
#[derive(Debug, Clone)]
pub struct PriceFeedConfig {
    pub source: Source,
    pub asset: Asset,
    pub url_pattern: String,
    pub enabled: bool,
    pub fail_count_warn: Option<u32>,
}

pub struct PriceFeedConfigView {
    pub source: Source,
    pub asset: Seq<char>,
    pub url_pattern: Seq<char>,
    pub enabled: bool,
    pub fail_count_warn: Option<u32>,
}

impl View for PriceFeedConfig {
    type V = PriceFeedConfigView;

    open spec fn view(&self) -> PriceFeedConfigView {
        PriceFeedConfigView {
            source: self.source,
            asset: self.asset@,
            url_pattern: self.url_pattern@,
            enabled: self.enabled,
            fail_count_warn: self.fail_count_warn,
        }
    }
}

impl PriceFeedConfig {
    /// The id of the feed.
    pub fn key(&self) -> (r: FeedId)
        ensures
            r@ == feed_key(self.source, self.asset@),
    {
        feed_id(&self.source, &self.asset)
    }

    /// The url of the feed: its pattern as it stands.
    pub fn url(&self) -> (r: String)
        ensures
            r@ == self.url_pattern@,
    {
        self.url_pattern.clone()
    }

    pub fn duplicate(&self) -> (r: PriceFeedConfig)
        ensures
            r@ == self@,
    {
        PriceFeedConfig {
            source: self.source,
            asset: self.asset.clone(),
            url_pattern: self.url_pattern.clone(),
            enabled: self.enabled,
            fail_count_warn: self.fail_count_warn,
        }
    }

    pub fn same_as(&self, other: &PriceFeedConfig) -> (r: bool)
        ensures
            r == (self@ == other@),
    {
        let same_warn = match (self.fail_count_warn, other.fail_count_warn) {
            (Some(a), Some(b)) => a == b,
            (None, None) => true,
            _ => false,
        };
        self.source == other.source && self.asset == other.asset && self.url_pattern
            == other.url_pattern && self.enabled == other.enabled && same_warn
    }
}

/// Settings of the arbitrage bot.
#[derive(Debug, Clone, Copy, PartialEq, Eq, Structural)]
pub struct ArbBotConfig {
    /// The largest distance, in milliseconds, between the two prices compared.
    pub time_diff: i64,
    /// The least price difference, in percent of the larger price, that is traded.
    pub price_threshold: u64,
    /// The quantity of one trade.
    pub qty: i64,
    pub enabled: bool,
    /// How long, in milliseconds, the bot waits after a trade.
    pub lockout_period: i64,
}

impl Default for ArbBotConfig {
    fn default() -> (r: Self)
        ensures
            r == (ArbBotConfig {
                time_diff: 0,
                price_threshold: 0,
                qty: 0,
                enabled: false,
                lockout_period: 0,
            }),
    {
        ArbBotConfig { time_diff: 0, price_threshold: 0, qty: 0, enabled: false, lockout_period: 0 }
    }
}

/// The configuration of the arbitrage bot: the feeds of each asset, and its settings.
pub struct ArbBotAppConfig {
    pub price_feeds: Vec<(Asset, Vec<PriceFeedConfig>)>,
    pub arb_bot_config: ArbBotConfig,
}

pub struct ArbBotAppConfigView {
    pub price_feeds: Seq<(Seq<char>, Seq<PriceFeedConfigView>)>,
    pub arb_bot_config: ArbBotConfig,
}

impl View for ArbBotAppConfig {
    type V = ArbBotAppConfigView;

    open spec fn view(&self) -> ArbBotAppConfigView {
        ArbBotAppConfigView {
            price_feeds: self.price_feeds@.map_values(
                |g: (Asset, Vec<PriceFeedConfig>)| (g.0@, g.1@.map_values(|f: PriceFeedConfig| f@)),
            ),
            arb_bot_config: self.arb_bot_config,
        }
    }
}

/// The feeds of all the groups, group after group.
pub open spec fn all_feeds(groups: Seq<(Seq<char>, Seq<PriceFeedConfigView>)>) -> Seq<
    PriceFeedConfigView,
>
    decreases groups.len(),
{
    if groups.len() == 0 {
        Seq::empty()
    } else {
        all_feeds(groups.drop_last()) + groups.last().1
    }
}

/// Each feed id with the last feed of the list that has it.
pub open spec fn feeds_by_id(feeds: Seq<PriceFeedConfigView>) -> Map<Seq<char>, PriceFeedConfigView>
    decreases feeds.len(),
{
    if feeds.len() == 0 {
        Map::empty()
    } else {
        feeds_by_id(feeds.drop_last()).insert(
            feed_key(feeds.last().source, feeds.last().asset),
            feeds.last(),
        )
    }
}

pub struct ArbBotView {
    pub feed_config: Map<Seq<char>, PriceFeedConfigView>,
    pub config: ArbBotConfig,
    pub state: Map<Seq<char>, PriceEvent>,
    pub balance: Map<Seq<char>, i64>,
    pub lockout_timestamp: int,
}

/// The state after a configuration is applied: its feeds, the prices of the feeds that it
/// still has, its settings.
pub open spec fn configured(v: ArbBotView, config: ArbBotAppConfigView) -> ArbBotView {
    let feeds = feeds_by_id(all_feeds(config.price_feeds));
    ArbBotView {
        feed_config: feeds,
        config: config.arb_bot_config,
        state: v.state.restrict(feeds.dom()),
        ..v
    }
}

pub open spec fn abs_diff(a: int, b: int) -> int {
    if a >= b {
        a - b
    } else {
        b - a
    }
}

pub open spec fn max_of(a: int, b: int) -> int {
    if a >= b {
        a
    } else {
        b
    }
}

/// The trade that the bot makes between a centralised and a decentralised price, if any:
/// none where the prices are more than `time_diff` apart in time, none where they differ
/// by less than `price_threshold` percent of the larger one; else the quantity bought
/// (where the decentralised price is higher) or sold at the centralised price.
pub open spec fn trade_between(cfg: ArbBotConfig, cex: PriceEvent, dex: PriceEvent) -> Option<
    (u64, i64, Side),
> {
    if abs_diff(cex.timestamp as int, dex.timestamp as int) > cfg.time_diff {
        None
    } else if abs_diff(cex.price as int, dex.price as int) * 100 < cfg.price_threshold * max_of(
        cex.price as int,
        dex.price as int,
    ) {
        None
    } else if dex.price > cex.price {
        Some((cex.price, cfg.qty, Side::BUY))
    } else {
        Some((cex.price, cfg.qty, Side::SELL))
    }
}

/// The trade that the bot makes for `asset` at `now`, if any: none while it is disabled or
/// locked out, none without a price from both venues.
pub open spec fn opportunity(v: ArbBotView, asset: Seq<char>, now: i64) -> Option<(u64, i64, Side)> {
    let cex = feed_key(Source::Binance, asset);
    let dex = feed_key(Source::Uniswap, asset);
    if !v.config.enabled || now < v.lockout_timestamp {
        None
    } else if !v.state.contains_key(cex) || !v.state.contains_key(dex) {
        None
    } else {
        trade_between(v.config, v.state[cex], v.state[dex])
    }
}

/// The signed change of the balance that a trade makes.
pub open spec fn signed_qty(qty: i64, side: Side) -> int {
    match side {
        Side::BUY => qty as int,
        Side::SELL => -qty,
    }
}

/// The balance of `asset`, zero where there is none.
pub open spec fn balance_of(v: ArbBotView, asset: Seq<char>) -> int {
    if v.balance.contains_key(asset) {
        v.balance[asset] as int
    } else {
        0
    }
}

/// Whether the trade `t` of `asset` can be booked: the negated quantity of a sale is an
/// `i64`, and the balance after the trade is one.
pub open spec fn trade_fits(v: ArbBotView, asset: Seq<char>, t: (u64, i64, Side)) -> bool {
    &&& (t.2 == Side::SELL ==> t.1 > i64::MIN)
    &&& i64::MIN <= balance_of(v, asset) + signed_qty(t.1, t.2) <= i64::MAX
}

/// Whether the trade that the bot makes for `asset` at `now`, if any, can be booked.
pub open spec fn settles(v: ArbBotView, asset: Seq<char>, now: i64) -> bool {
    opportunity(v, asset, now) matches Some(t) ==> trade_fits(v, asset, t)
}

/// The state after `asset` is examined at `now`: after a trade the balance has moved by the
/// trade and the bot is locked out for the lockout period; else nothing changes.
pub open spec fn after_opportunity(v: ArbBotView, asset: Seq<char>, now: i64) -> ArbBotView {
    match opportunity(v, asset, now) {
        Some(t) => ArbBotView {
            balance: v.balance.insert(asset, (balance_of(v, asset) + signed_qty(t.1, t.2)) as i64),
            lockout_timestamp: now + v.config.lockout_period,
            ..v
        },
        None => v,
    }
}

/// The state after a price of `asset` on `source` is taken.
pub open spec fn with_price(v: ArbBotView, price: PriceEvent, asset: Seq<char>, source: Source) -> ArbBotView {
    ArbBotView { state: v.state.insert(feed_key(source, asset), price), ..v }
}

/// Compares the prices of an asset on a centralised and a decentralised venue and trades
/// where they differ enough.
pub struct ArbBot {
    feed_config: AssocMap<FeedId, PriceFeedConfig>,
    config: ArbBotConfig,
    state: AssocMap<FeedId, PriceEvent>,
    balance: AssocMap<Asset, i64>,
    lockout_timestamp: i128,
}

impl View for ArbBot {
    type V = ArbBotView;

    closed spec fn view(&self) -> ArbBotView {
        ArbBotView {
            feed_config: self.feed_config@.map_values(|f: PriceFeedConfig| f@),
            config: self.config,
            state: self.state@,
            balance: self.balance@,
            lockout_timestamp: self.lockout_timestamp as int,
        }
    }
}

impl ArbBot {
    pub closed spec fn wf(&self) -> bool {
        &&& self.feed_config.wf()
        &&& self.state.wf()
        &&& self.balance.wf()
        &&& 2 * (i64::MIN as int) <= self.lockout_timestamp <= 2 * (i64::MAX as int)
    }

    /// A bot with no prices and no balance, configured by `map`.
    pub fn new(map: ArbBotAppConfig) -> (r: Self)
        ensures
            r.wf(),
            r@ == configured(
                ArbBotView {
                    feed_config: Map::empty(),
                    config: ArbBotConfig::default_spec(),
                    state: Map::empty(),
                    balance: Map::empty(),
                    lockout_timestamp: 0,
                },
                map@,
            ),
    {
        let mut bot = ArbBot {
            feed_config: AssocMap::new(),
            config: ArbBotConfig::default(),
            state: AssocMap::new(),
            balance: AssocMap::new(),
            lockout_timestamp: 0,
        };
        proof {
            assert(bot@.feed_config =~= Map::empty());
        }
        bot.init(map);
        bot
    }

    /// Applies a configuration: its feeds replace the known ones, the prices of feeds that
    /// are no longer configured are dropped, its settings take effect.
    pub fn init(&mut self, config: ArbBotAppConfig)
        requires
            old(self).wf(),
        ensures
            final(self).wf(),
            final(self)@ == configured(old(self)@, config@),
            final(self)@.balance == old(self)@.balance,
            final(self)@.lockout_timestamp == old(self)@.lockout_timestamp,
            final(self)@.config == config.arb_bot_config,
            final(self)@.feed_config == feeds_by_id(all_feeds(config@.price_feeds)),
    {
        let ghost groups = config@.price_feeds;
        let ghost old_fc = self.feed_config@;
        let mut new_config: AssocMap<FeedId, PriceFeedConfig> = AssocMap::new();
        let ng = config.price_feeds.len();
        let mut g: usize = 0;
        while g < ng
            invariant
                ng == config.price_feeds@.len(),
                groups == config@.price_feeds,
                g <= ng,
                new_config.wf(),
                self.wf(),
                self.state == old(self).state,
                self.balance == old(self).balance,
                self.config == old(self).config,
                self.lockout_timestamp == old(self).lockout_timestamp,
                new_config@.map_values(|f: PriceFeedConfig| f@) == feeds_by_id(
                    all_feeds(groups.take(g as int)),
                ),
                forall|k: Seq<char>| #[trigger]
                    self.feed_config@.contains_key(k) == (old_fc.contains_key(k)
                        || new_config@.contains_key(k)),
                forall|k: Seq<char>| #[trigger]
                    new_config@.contains_key(k) ==> self.feed_config@[k]@ == new_config@[k]@,
            decreases ng - g,
        {
            let feeds = &config.price_feeds[g].1;
            let ghost prefix = all_feeds(groups.take(g as int));
            let ghost grp = groups[g as int].1;
            assert(grp == feeds@.map_values(|f: PriceFeedConfig| f@));
            let nf = feeds.len();
            let mut j: usize = 0;
            while j < nf
                invariant
                    nf == feeds@.len(),
                    grp == feeds@.map_values(|f: PriceFeedConfig| f@),
                    j <= nf,
                    new_config.wf(),
                    self.wf(),
                    self.state == old(self).state,
                    self.balance == old(self).balance,
                    self.config == old(self).config,
                    self.lockout_timestamp == old(self).lockout_timestamp,
                    new_config@.map_values(|f: PriceFeedConfig| f@) == feeds_by_id(
                        prefix + grp.take(j as int),
                    ),
                    forall|k: Seq<char>| #[trigger]
                        self.feed_config@.contains_key(k) == (old_fc.contains_key(k)
                            || new_config@.contains_key(k)),
                    forall|k: Seq<char>| #[trigger]
                        new_config@.contains_key(k) ==> self.feed_config@[k]@
                            == new_config@[k]@,
                decreases nf - j,
            {
                let cfg = &feeds[j];
                let key = cfg.key();
                new_config.insert(cfg.key(), cfg.duplicate());
                let skip = match self.feed_config.get(&key) {
                    Some(existing) => existing.same_as(cfg),
                    None => false,
                };
                if !skip {
                    self.feed_config.insert(key, cfg.duplicate());
                }
                proof {
                    let s1 = prefix + grp.take(j + 1);
                    assert(s1.drop_last() =~= prefix + grp.take(j as int));
                    assert(s1.last() == cfg@);
                    assert(new_config@.map_values(|f: PriceFeedConfig| f@) =~= feeds_by_id(s1));
                }
                j = j + 1;
            }
            proof {
                assert(grp.take(nf as int) =~= grp);
                assert(groups.take(g + 1).drop_last() =~= groups.take(g as int));
                assert(all_feeds(groups.take(g + 1)) == prefix + grp);
            }
            g = g + 1;
        }
        self.feed_config.retain_keys(&new_config);
        self.state.retain_keys(&new_config);
        self.config = config.arb_bot_config;
        proof {
            assert(groups.take(ng as int) =~= groups);
            let fb = feeds_by_id(all_feeds(groups));
            assert(new_config@.dom() =~= fb.dom()) by {
                assert forall|k: Seq<char>|
                    new_config@.dom().contains(k) == fb.dom().contains(k) by {
                    assert(new_config@.map_values(|f: PriceFeedConfig| f@).dom().contains(k)
                        == new_config@.dom().contains(k));
                }
            }
            assert(self@.feed_config =~= fb) by {
                assert forall|k: Seq<char>| #[trigger] self@.feed_config.contains_key(k) implies
                    self@.feed_config[k] == fb[k] by {
                    assert(self.feed_config@[k]@ == new_config@[k]@);
                }
            }
            assert(self@.state =~= old(self)@.state.restrict(fb.dom()));
        }
    }

    /// Takes a price of `asset` seen on `source`.
    pub fn collect_price(&mut self, price: PriceEvent, asset: &Asset, source: &Source)
        requires
            old(self).wf(),
        ensures
            final(self).wf(),
            final(self)@ == with_price(old(self)@, price, asset@, *source),
    {
        let id = feed_id(source, asset);
        self.state.insert(id, price);
    }

    /// Looks for a trade of `asset` by the machine's clock; see `take_opportunities_at`.
    pub fn take_opportunities(&mut self, asset: &Asset) -> (r: Option<(u64, i64, Side)>)
        requires
            old(self).wf(),
            forall|now: i64| settles(old(self)@, asset@, now),
        ensures
            final(self).wf(),
            exists|us: Option<u128>|
                r == opportunity(old(self)@, asset@, millis_of(us)) && final(self)@
                    == after_opportunity(old(self)@, asset@, millis_of(us)),
    {
        let clock = SystemClock::new();
        let now = clock.current_timestamp();
        self.take_opportunities_at(asset, now)
    }

    /// Looks for a trade of `asset` at `now`: where the bot is enabled, not locked out, and
    /// has prices of the asset from both venues that are close enough in time and far enough
    /// apart, it trades the configured quantity at the centralised price, moves the balance
    /// of the asset by it, and locks itself out for the lockout period.
    pub fn take_opportunities_at(&mut self, asset: &Asset, now: i64) -> (r: Option<(u64, i64, Side)>)
        requires
            old(self).wf(),
            settles(old(self)@, asset@, now),
        ensures
            final(self).wf(),
            r == opportunity(old(self)@, asset@, now),
            final(self)@ == after_opportunity(old(self)@, asset@, now),
    {
        if !self.config.enabled {
            return None;
        }
        if (now as i128) < self.lockout_timestamp {
            return None;
        }
        let binance = feed_id(&Source::Binance, asset);
        let uniswap = feed_id(&Source::Uniswap, asset);
        self.take_opportunity_between(&binance, &uniswap, asset, now)
    }

    fn take_opportunity_between(
        &mut self,
        cex_feed: &FeedId,
        dex_feed: &FeedId,
        asset: &Asset,
        now: i64,
    ) -> (r: Option<(u64, i64, Side)>)
        requires
            old(self).wf(),
            settles(old(self)@, asset@, now),
            old(self)@.config.enabled,
            now >= old(self)@.lockout_timestamp,
            cex_feed@ == feed_key(Source::Binance, asset@),
            dex_feed@ == feed_key(Source::Uniswap, asset@),
        ensures
            final(self).wf(),
            r == opportunity(old(self)@, asset@, now),
            final(self)@ == after_opportunity(old(self)@, asset@, now),
    {
        let result = match self.opportunity_between(cex_feed, dex_feed) {
            Some(t) => t,
            None => {
                return None;
            },
        };
        self.update_balance(asset, &result);
        self.lockout_timestamp = (now as i128) + (self.config.lockout_period as i128);
        Some(result)
    }

    fn update_balance(&mut self, asset: &Asset, result: &(u64, i64, Side))
        requires
            old(self).wf(),
            trade_fits(old(self)@, asset@, *result),
            result.1 == old(self)@.config.qty,
        ensures
            final(self).wf(),
            final(self)@ == (ArbBotView {
                balance: old(self)@.balance.insert(
                    asset@,
                    (balance_of(old(self)@, asset@) + signed_qty(result.1, result.2)) as i64,
                ),
                ..old(self)@
            }),
            final(self).lockout_timestamp == old(self).lockout_timestamp,
    {
        let delta: i64 = match result.2 {
            Side::BUY => self.config.qty,
            Side::SELL => -self.config.qty,
        };
        match self.balance.get(asset) {
            None => {
                self.balance.insert(asset.clone(), delta);
            },
            Some(e) => {
                let b = *e + delta;
                self.balance.insert(asset.clone(), b);
            },
        }
    }

    /// The trade between the prices of the two feeds, where both have one (see
    /// `trade_between`); nothing changes.
    fn opportunity_between(&self, cex_feed: &FeedId, dex_feed: &FeedId) -> (r: Option<
        (u64, i64, Side),
    >)
        requires
            self.wf(),
        ensures
            r == (if self@.state.contains_key(cex_feed@) && self@.state.contains_key(dex_feed@) {
                trade_between(self@.config, self@.state[cex_feed@], self@.state[dex_feed@])
            } else {
                None
            }),
    {
        let cex = match self.state.get(cex_feed) {
            Some(e) => *e,
            None => {
                return None;
            },
        };
        let dex = match self.state.get(dex_feed) {
            Some(e) => *e,
            None => {
                return None;
            },
        };
        let apart = (cex.timestamp as i128) - (dex.timestamp as i128);
        let apart_abs = if apart >= 0 {
            apart
        } else {
            -apart
        };
        if apart_abs > self.config.time_diff as i128 {
            return None;
        }
        let price_diff: u128 = if cex.price >= dex.price {
            (cex.price - dex.price) as u128
        } else {
            (dex.price - cex.price) as u128
        };
        let larger: u128 = if cex.price >= dex.price {
            cex.price as u128
        } else {
            dex.price as u128
        };
        assert(price_diff * 100 <= u128::MAX) by (nonlinear_arith)
            requires
                price_diff <= u64::MAX,
        ;
        assert(self.config.price_threshold as u128 * larger <= u128::MAX) by (nonlinear_arith)
            requires
                larger <= u64::MAX,
                self.config.price_threshold <= u64::MAX,
        ;
        if price_diff * 100 < (self.config.price_threshold as u128) * larger {
            return None;
        }
        if dex.price > cex.price {
            Some((cex.price, self.config.qty, Side::BUY))
        } else {
            Some((cex.price, self.config.qty, Side::SELL))
        }
    }

    /// The trade that `take_opportunities_at` would make for `asset` at `now`; nothing
    /// changes.
    pub fn peek_opportunity_at(&self, asset: &Asset, now: i64) -> (r: Option<(u64, i64, Side)>)
        requires
            self.wf(),
        ensures
            r == opportunity(self@, asset@, now),
    {
        if !self.config.enabled {
            return None;
        }
        if (now as i128) < self.lockout_timestamp {
            return None;
        }
        let binance = feed_id(&Source::Binance, asset);
        let uniswap = feed_id(&Source::Uniswap, asset);
        self.opportunity_between(&binance, &uniswap)
    }

    /// Whether the trade `t` of `asset` can be booked (see `trade_fits`).
    pub fn trade_settles(&self, asset: &Asset, t: &(u64, i64, Side)) -> (r: bool)
        requires
            self.wf(),
        ensures
            r == trade_fits(self@, asset@, *t),
    {
        let b: i128 = match self.balance.get(asset) {
            Some(b) => *b as i128,
            None => 0,
        };
        let q = t.1 as i128;
        match t.2 {
            Side::BUY => i64::MIN as i128 <= b + q && b + q <= i64::MAX as i128,
            Side::SELL => t.1 > i64::MIN && i64::MIN as i128 <= b - q && b - q <= i64::MAX as i128,
        }
    }

    /// The latest price of the feed `feed_id`.
    pub fn price(&self, feed_id: &FeedId) -> (r: Option<PriceEvent>)
        requires
            self.wf(),
        ensures
            r is Some == self@.state.contains_key(feed_id@),
            r matches Some(p) ==> p == self@.state[feed_id@],
    {
        match self.state.get(feed_id) {
            Some(p) => Some(*p),
            None => None,
        }
    }

    /// The number of feeds that have a price.
    pub fn state_len(&self) -> (r: usize)
        requires
            self.wf(),
        ensures
            r == self@.state.len(),
    {
        self.state.len()
    }

    /// The balance of `asset`, where it has one.
    pub fn balance(&self, asset: &Asset) -> (r: Option<i64>)
        requires
            self.wf(),
        ensures
            r is Some == self@.balance.contains_key(asset@),
            r matches Some(b) ==> b == self@.balance[asset@],
    {
        match self.balance.get(asset) {
            Some(b) => Some(*b),
            None => None,
        }
    }

    /// The number of assets that have a balance.
    pub fn balance_len(&self) -> (r: usize)
        requires
            self.wf(),
        ensures
            r == self@.balance.len(),
    {
        self.balance.len()
    }

    /// The feed configured under `feed_id`.
    pub fn feed_config(&self, feed_id: &FeedId) -> (r: Option<&PriceFeedConfig>)
        requires
            self.wf(),
        ensures
            r is Some == self@.feed_config.contains_key(feed_id@),
            r matches Some(f) ==> f@ == self@.feed_config[feed_id@],
    {
        self.feed_config.get(feed_id)
    }

    pub fn config(&self) -> (r: ArbBotConfig)
        ensures
            r == self@.config,
    {
        self.config
    }
}

impl ArbBotConfig {
    pub open spec fn default_spec() -> ArbBotConfig {
        ArbBotConfig { time_diff: 0, price_threshold: 0, qty: 0, enabled: false, lockout_period: 0 }
    }
}

/// A message to the arbitrage processor.
pub enum ProcessorMessage {
    Price(PriceEvent, Asset, Source),
    ConfigChange(ArbBotAppConfig),
    Stop,
}

/// Handles one message of the processor's queue: a price is taken and the asset examined
/// for a trade (the trade, if any, is the result), a configuration is applied, a stop is
/// latched.
pub fn handle_message(bot: &mut ArbBot, latch: &mut StopLatch, msg: ProcessorMessage) -> (r: Option<
    (u64, i64, Side),
>)
    requires
        old(bot).wf(),
        msg matches ProcessorMessage::Price(price, asset, source) ==> forall|now: i64|
            settles(with_price(old(bot)@, price, asset@, source), asset@, now),
    ensures
        final(bot).wf(),
        match msg {
            ProcessorMessage::Price(price, asset, source) => {
                let seen = with_price(old(bot)@, price, asset@, source);
                &&& exists|us: Option<u128>|
                    r == opportunity(seen, asset@, millis_of(us)) && final(bot)@
                        == after_opportunity(seen, asset@, millis_of(us))
                &&& final(latch).stop_requested == old(latch).stop_requested
            },
            ProcessorMessage::ConfigChange(cfg) => {
                &&& r is None
                &&& final(bot)@ == configured(old(bot)@, cfg@)
                &&& final(bot)@.balance == old(bot)@.balance
                &&& final(bot)@.lockout_timestamp == old(bot)@.lockout_timestamp
                &&& final(latch).stop_requested == old(latch).stop_requested
            },
            ProcessorMessage::Stop => {
                &&& r is None
                &&& final(bot)@ == old(bot)@
                &&& final(latch).stop_requested
            },
        },
{
    match msg {
        ProcessorMessage::Price(price, asset, source) => {
            bot.collect_price(price, &asset, &source);
            bot.take_opportunities(&asset)
        },
        ProcessorMessage::ConfigChange(cfg) => {
            bot.init(cfg);
            None
        },
        ProcessorMessage::Stop => {
            latch.request_stop();
            None
        },
    }
}

/// After a trade at `now`, no asset trades before the lockout period has passed, and
/// looking changes nothing.
pub proof fn lemma_lockout_blocks_trades(
    v: ArbBotView,
    asset: Seq<char>,
    now: i64,
    other: Seq<char>,
    t: i64,
)
    requires
        opportunity(v, asset, now) is Some,
        t < now + v.config.lockout_period,
    ensures
        opportunity(after_opportunity(v, asset, now), other, t) is None,
        after_opportunity(after_opportunity(v, asset, now), other, t) == after_opportunity(
            v,
            asset,
            now,
        ),
{
}

/// Once the lockout period after a trade has passed, the same prices give the same trade.
pub proof fn lemma_trade_repeats_after_lockout(v: ArbBotView, asset: Seq<char>, now: i64, t: i64)
    requires
        opportunity(v, asset, now) is Some,
        t >= now + v.config.lockout_period,
    ensures
        opportunity(after_opportunity(v, asset, now), asset, t) == opportunity(v, asset, now),
{
}

/// A disabled bot never trades, and looking changes nothing.
pub proof fn lemma_disabled_never_trades(v: ArbBotView, asset: Seq<char>, now: i64)
    requires
        !v.config.enabled,
    ensures
        opportunity(v, asset, now) is None,
        after_opportunity(v, asset, now) == v,
{
}

/// A trade moves the balance of its asset by its signed quantity and leaves the balances
/// of other assets alone.
pub proof fn lemma_trade_moves_balance(v: ArbBotView, asset: Seq<char>, now: i64, other: Seq<char>)
    requires
        opportunity(v, asset, now) matches Some(t) && trade_fits(v, asset, t),
    ensures
        ({
            let t = opportunity(v, asset, now)->0;
            balance_of(after_opportunity(v, asset, now), asset) == balance_of(v, asset)
                + signed_qty(t.1, t.2)
        }),
        other != asset ==> balance_of(after_opportunity(v, asset, now), other) == balance_of(
            v,
            other,
        ),
{
}

/// Prices further apart in time than the configured distance never trade.
pub proof fn lemma_stale_prices_never_trade(cfg: ArbBotConfig, cex: PriceEvent, dex: PriceEvent)
    requires
        abs_diff(cex.timestamp as int, dex.timestamp as int) > cfg.time_diff,
    ensures
        trade_between(cfg, cex, dex) is None,
{
}

/// A trade is at the centralised price, of the configured quantity, and buys exactly when
/// the decentralised price is the higher one.
pub proof fn lemma_trade_terms(cfg: ArbBotConfig, cex: PriceEvent, dex: PriceEvent)
    requires
        trade_between(cfg, cex, dex) is Some,
    ensures
        ({
            let t = trade_between(cfg, cex, dex)->0;
            &&& t.0 == cex.price
            &&& t.1 == cfg.qty
            &&& (t.2 == Side::BUY) == (dex.price > cex.price)
        }),
{
}

/// Equal positive prices never trade under a positive threshold.
pub proof fn lemma_equal_prices_never_trade(cfg: ArbBotConfig, cex: PriceEvent, dex: PriceEvent)
    requires
        cex.price == dex.price,
        cex.price > 0,
        cfg.price_threshold > 0,
    ensures
        trade_between(cfg, cex, dex) is None,
{
    assert(cfg.price_threshold * (cex.price as int) > 0) by (nonlinear_arith)
        requires
            cfg.price_threshold > 0,
            cex.price > 0,
    ;
}

/// The price taken for a feed is the one that the feed then has.
pub proof fn lemma_price_read_after_write(
    v: ArbBotView,
    price: PriceEvent,
    asset: Seq<char>,
    source: Source,
)
    ensures
        with_price(v, price, asset, source).state[feed_key(source, asset)] == price,
        with_price(v, price, asset, source).state.contains_key(feed_key(source, asset)),
{
}

/// Applying a configuration a second time changes nothing.
pub proof fn lemma_configure_idempotent(v: ArbBotView, config: ArbBotAppConfigView)
    ensures
        configured(configured(v, config), config) == configured(v, config),
{
    let feeds = feeds_by_id(all_feeds(config.price_feeds));
    assert(v.state.restrict(feeds.dom()).restrict(feeds.dom()) =~= v.state.restrict(feeds.dom()));
}

/// After a configuration is applied, only its feeds have prices.
pub proof fn lemma_configured_prices_are_configured(v: ArbBotView, config: ArbBotAppConfigView)
    ensures
        configured(v, config).state.dom().subset_of(configured(v, config).feed_config.dom()),
{
}

/// The bot trades exactly where it is enabled, past its lockout, and has a price of the
/// asset from both venues, at most `time_diff` apart in time and apart in price by at least
/// `price_threshold` percent of the larger of the two; the trade is then `qty` at the
/// centralised price, bought where the decentralised price is higher and sold otherwise.
pub proof fn lemma_opportunity_rule(v: ArbBotView, asset: Seq<char>, now: i64)
    ensures
        ({
            let ck = feed_key(Source::Binance, asset);
            let dk = feed_key(Source::Uniswap, asset);
            let c = v.state[ck];
            let d = v.state[dk];
            let gap: int = if c.price >= d.price {
                c.price - d.price
            } else {
                d.price - c.price
            };
            let larger: int = if c.price >= d.price {
                c.price as int
            } else {
                d.price as int
            };
            let apart: int = if c.timestamp >= d.timestamp {
                c.timestamp - d.timestamp
            } else {
                d.timestamp - c.timestamp
            };
            &&& (opportunity(v, asset, now) is Some) == (v.config.enabled && now
                >= v.lockout_timestamp && v.state.contains_key(ck) && v.state.contains_key(dk)
                && apart <= v.config.time_diff && gap * 100 >= v.config.price_threshold * larger)
            &&& opportunity(v, asset, now) matches Some(t) ==> t.0 == c.price && t.1
                == v.config.qty && (t.2 == Side::BUY) == (d.price > c.price)
        }),
{
}

/// Whether two prices are traded does not depend on which venue quotes the larger one:
/// swapping the prices of the two venues keeps a trade a trade and a non-trade a non-trade.
pub proof fn lemma_trade_symmetric(cfg: ArbBotConfig, cex: PriceEvent, dex: PriceEvent)
    ensures
        (trade_between(cfg, cex, dex) is Some) == (trade_between(
            cfg,
            (PriceEvent { price: dex.price, timestamp: cex.timestamp }),
            (PriceEvent { price: cex.price, timestamp: dex.timestamp }),
        ) is Some),
{
}

/// A trade is made only where the price gap, in percent of the larger price, reaches the
/// threshold.
pub proof fn lemma_trade_reaches_threshold(cfg: ArbBotConfig, cex: PriceEvent, dex: PriceEvent)
    ensures
        trade_between(cfg, cex, dex) is Some ==> (if cex.price >= dex.price {
            cex.price - dex.price
        } else {
            dex.price - cex.price
        }) * 100 >= cfg.price_threshold * (if cex.price >= dex.price {
            cex.price as int
        } else {
            dex.price as int
        }),
{
}

/// Applying a configuration keeps the balances and the lockout: the position of the bot is
/// not touched by its settings.
pub proof fn lemma_configure_keeps_position(v: ArbBotView, config: ArbBotAppConfigView)
    ensures
        configured(v, config).balance == v.balance,
        configured(v, config).lockout_timestamp == v.lockout_timestamp,
        configured(v, config).config == config.arb_bot_config,
        forall|k: Seq<char>| #[trigger]
            configured(v, config).state.contains_key(k) ==> v.state.contains_key(k)
                && configured(v, config).state[k] == v.state[k],
{
}

} // verus!
