use crate::order_book_collector::Source;
use vstd::prelude::*;

verus! {

/// Name of the local environment.
pub const LOCAL: &'static str = "local";

/// Name of the QA environment.
pub const QA: &'static str = "qa";

const TESTNET: &'static str = "testnet";

const PROD: &'static str = "prod";

/// The configuration key for an environment name; unknown names get the local key.
pub open spec fn config_key_of(env: Seq<char>) -> Seq<char> {
    if env == "qa"@ {
        "order_book/qa"@
    } else if env == "testnet"@ {
        "order_book/testnet"@
    } else if env == "prod"@ {
        "order_book/prod"@
    } else {
        "order_book/local"@
    }
}

/// The configuration key to read for the environment named `env`.
pub fn config_key_for_env(env: &str) -> (r: String)
    ensures
        r@ == config_key_of(env@),
{
    let e = String::from_str(env);
    if e == String::from_str(QA) {
        String::from_str("order_book/qa")
    } else if e == String::from_str(TESTNET) {
        String::from_str("order_book/testnet")
    } else if e == String::from_str(PROD) {
        String::from_str("order_book/prod")
    } else {
        String::from_str("order_book/local")
    }
}

/// The whole application configuration.
#[derive(Debug, Clone)]
pub struct AppConfig {
    pub feeds: Vec<FeedConfig>,
    pub ob_collector_config: OrderBookCollectorConfig,
}

pub struct AppConfigView {
    pub feeds: Seq<FeedConfigView>,
    pub ob_collector_config: OrderBookCollectorConfig,
}

impl View for AppConfig {
    type V = AppConfigView;

    open spec fn view(&self) -> AppConfigView {
        AppConfigView {
            feeds: self.feeds@.map_values(|f: FeedConfig| f@),
            ob_collector_config: self.ob_collector_config,
        }
    }
}

impl AppConfig {
    /// Checks the configuration; every configuration is accepted.
    pub fn validate(&self) -> (r: Result<(), String>)
        ensures
            r is Ok,
    {
        Ok(())
    }

    /// A copy with the same view.
    pub fn duplicate(&self) -> (r: AppConfig)
        ensures
            r@ == self@,
    {
        let n = self.feeds.len();
        let mut feeds: Vec<FeedConfig> = Vec::new();
        let mut i: usize = 0;
        while i < n
            invariant
                n == self.feeds@.len(),
                i <= n,
                feeds@.len() == i,
                forall|j: int| 0 <= j < i ==> #[trigger] feeds@[j]@ == self.feeds@[j]@,
            decreases n - i,
        {
            feeds.push(self.feeds[i].duplicate());
            i = i + 1;
        }
        let r = AppConfig { feeds, ob_collector_config: self.ob_collector_config };
        assert(r@.feeds =~= self@.feeds);
        r
    }

    /// Whether the two configurations have the same view.
    pub fn same_as(&self, other: &AppConfig) -> (r: bool)
        ensures
            r == (self@ == other@),
    {
        if self.ob_collector_config.time_diff != other.ob_collector_config.time_diff
            || self.ob_collector_config.enabled != other.ob_collector_config.enabled {
            return false;
        }
        let n = self.feeds.len();
        if n != other.feeds.len() {
            assert(self@.feeds.len() != other@.feeds.len());
            return false;
        }
        let mut i: usize = 0;
        while i < n
            invariant
                n == self.feeds@.len(),
                n == other.feeds@.len(),
                i <= n,
                forall|j: int| 0 <= j < i ==> #[trigger] self.feeds@[j]@ == other.feeds@[j]@,
            decreases n - i,
        {
            if !self.feeds[i].same_as(&other.feeds[i]) {
                assert(self@.feeds[i as int] != other@.feeds[i as int]);
                return false;
            }
            i = i + 1;
        }
        assert(self@.feeds =~= other@.feeds);
        true
    }
}

/// Settings of the order book collector.
#[derive(Debug, Clone, Copy, PartialEq, Eq, Structural)]
pub struct OrderBookCollectorConfig {
    /// The largest age, in milliseconds, of an order book that is still collected.
    pub time_diff: i64,
    pub enabled: bool,
}

impl Default for OrderBookCollectorConfig {
    fn default() -> (r: Self)
        ensures
            r.time_diff == 1000,
            r.enabled,
    {
        OrderBookCollectorConfig { time_diff: 1000, enabled: true }
    }
}

/// One upstream feed.
#[derive(Debug, Clone)]
pub struct FeedConfig {
    pub source: Source,
    pub url_pattern: String,
    pub enabled: bool,
}

pub struct FeedConfigView {
    pub source: Source,
    pub url_pattern: Seq<char>,
    pub enabled: bool,
}

impl View for FeedConfig {
    type V = FeedConfigView;

    open spec fn view(&self) -> FeedConfigView {
        FeedConfigView { source: self.source, url_pattern: self.url_pattern@, enabled: self.enabled }
    }
}

impl FeedConfig {
    /// The url of the feed: its pattern as it stands.
    pub fn url(&self) -> (r: String)
        ensures
            r@ == self.url_pattern@,
    {
        self.url_pattern.clone()
    }

    /// The key of the feed: its source.
    pub fn key(&self) -> (r: Source)
        ensures
            r == self.source,
    {
        self.source
    }

    pub fn duplicate(&self) -> (r: FeedConfig)
        ensures
            r@ == self@,
    {
        FeedConfig { source: self.source, url_pattern: self.url_pattern.clone(), enabled: self.enabled }
    }

    pub fn same_as(&self, other: &FeedConfig) -> (r: bool)
        ensures
            r == (self@ == other@),
    {
        self.source == other.source && self.url_pattern == other.url_pattern && self.enabled
            == other.enabled
    }
}

/// Each source with the last feed of the list that has it.
pub open spec fn feeds_by_source(feeds: Seq<FeedConfigView>) -> Map<Source, FeedConfigView>
    decreases feeds.len(),
{
    if feeds.len() == 0 {
        Map::empty()
    } else {
        feeds_by_source(feeds.drop_last()).insert(feeds.last().source, feeds.last())
    }
}

/// A message to the configuration watcher.
pub enum ConfigPollerMessage {
    Stop,
}

/// The configuration in force, against which updates are compared.
pub struct ConfigWatcher {
    current: AppConfig,
}

impl View for ConfigWatcher {
    type V = AppConfigView;

    closed spec fn view(&self) -> AppConfigView {
        self.current@
    }
}

impl ConfigWatcher {
    pub fn new(initial: AppConfig) -> (r: ConfigWatcher)
        ensures
            r@ == initial@,
    {
        ConfigWatcher { current: initial }
    }

    pub fn current(&self) -> (r: &AppConfig)
        ensures
            r@ == self@,
    {
        &self.current
    }

    /// Takes an update: where it differs from the configuration in force it becomes the one
    /// in force and the result is true (the update is to be passed on); else nothing changes.
    pub fn on_update(&mut self, update: AppConfig) -> (r: bool)
        ensures
            (r, final(self)@) == watch_step(old(self)@, update@),
    {
        if self.current.same_as(&update) {
            false
        } else {
            self.current = update;
            true
        }
    }

    /// Takes a run of updates in order (see `on_update`); the result holds those that are
    /// to be passed on, in order.
    pub fn on_updates(&mut self, updates: Vec<AppConfig>) -> (r: Vec<AppConfig>)
        ensures
            (r@.map_values(|c: AppConfig| c@), final(self)@) == watch_run(
                old(self)@,
                updates@.map_values(|c: AppConfig| c@),
            ),
    {
        let ghost uv = updates@.map_values(|c: AppConfig| c@);
        let mut passed: Vec<AppConfig> = Vec::new();
        let mut rest = updates;
        let ghost all = rest@;
        let mut i: usize = 0;
        let n = rest.len();
        while i < n
            invariant
                n == all.len(),
                uv == all.map_values(|c: AppConfig| c@),
                i <= n,
                rest@ == all.skip(i as int),
                (passed@.map_values(|c: AppConfig| c@), self@) == watch_run(
                    old(self)@,
                    uv.take(i as int),
                ),
            decreases n - i,
        {
            let ghost before = passed@;
            let update = rest.remove(0);
            proof {
                assert(update == all[i as int]);
                assert(rest@ =~= all.skip(i + 1));
                assert(uv.take(i + 1).drop_last() =~= uv.take(i as int));
                assert(uv.take(i + 1).last() == update@);
            }
            let copy = update.duplicate();
            if self.on_update(update) {
                passed.push(copy);
                proof {
                    assert(passed@.map_values(|c: AppConfig| c@) =~= before.map_values(
                        |c: AppConfig| c@,
                    ).push(copy@));
                }
            }
            i = i + 1;
        }
        proof {
            assert(uv.take(n as int) =~= uv);
        }
        passed
    }
}

/// What the watcher does with an update: whether it passes it on, and the configuration in
/// force afterwards.
pub open spec fn watch_step(in_force: AppConfigView, update: AppConfigView) -> (bool, AppConfigView) {
    (update != in_force, update)
}

/// What the watcher does with a run of updates: those it passes on, in order, and the
/// configuration in force afterwards.
pub open spec fn watch_run(in_force: AppConfigView, updates: Seq<AppConfigView>) -> (
    Seq<AppConfigView>,
    AppConfigView,
)
    decreases updates.len(),
{
    if updates.len() == 0 {
        (Seq::empty(), in_force)
    } else {
        let (passed, current) = watch_run(in_force, updates.drop_last());
        let (pass, next) = watch_step(current, updates.last());
        (
            if pass {
                passed.push(updates.last())
            } else {
                passed
            },
            next,
        )
    }
}

/// Over a run of updates: the configuration in force afterwards is the last update (or the
/// one in force before, where there is none); the last one passed on is the one in force,
/// and where none is passed on the one in force has not changed;
/// and every configuration passed on differs from the one in force just before it, so no
/// configuration is passed on twice in a row.
pub proof fn lemma_watch_run(in_force: AppConfigView, updates: Seq<AppConfigView>)
    ensures
        ({
            let (passed, current) = watch_run(in_force, updates);
            &&& current == (if updates.len() == 0 {
                in_force
            } else {
                updates.last()
            })
            &&& passed.len() > 0 ==> passed.last() == current
            &&& passed.len() == 0 ==> current == in_force
            &&& passed.len() > 0 ==> passed[0] != in_force
            &&& forall|i: int| 0 <= i < passed.len() - 1 ==> #[trigger] passed[i] != passed[i + 1]
        }),
    decreases updates.len(),
{
    if updates.len() > 0 {
        lemma_watch_run(in_force, updates.drop_last());
        let (passed, current) = watch_run(in_force, updates.drop_last());
        let (passed2, current2) = watch_run(in_force, updates);
        if updates.last() != current {
            assert(passed2 == passed.push(updates.last()));
            if passed.len() > 0 {
                assert(passed2[0] == passed[0]);
            }
            assert forall|i: int| 0 <= i < passed2.len() - 1 implies #[trigger] passed2[i]
                != passed2[i + 1] by {
                if i == passed.len() - 1 {
                    assert(passed2[i] == current);
                }
            }
        }
    }
}

/// An update that was just taken is not passed on a second time.
pub proof fn lemma_update_not_repeated(in_force: AppConfigView, update: AppConfigView)
    ensures
        !watch_step(watch_step(in_force, update).1, update).0,
{
}

} // verus!
