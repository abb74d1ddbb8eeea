use crate::assoc_map::AssocMap;
use vstd::prelude::*;

verus! {

/// The smoothing that a feed's prices go through.
#[derive(Debug, Clone, Copy, PartialEq, Eq, Structural)]
pub enum SmoothingAlgorithm {
    SMA,
    EMA,
}

/// A venue whose prices go into the index.
#[derive(Debug, Clone, Copy, PartialEq, Eq, Hash, Structural)]
pub enum Source {
    Coinbase,
    Kraken,
}

impl Source {
    pub open spec fn name_of(self) -> Seq<char> {
        match self {
            Source::Coinbase => "Coinbase"@,
            Source::Kraken => "Kraken"@,
        }
    }

    /// The name of the venue, as it is written in feed ids.
    pub fn name(&self) -> (r: String)
        ensures
            r@ == self.name_of(),
    {
        match self {
            Source::Coinbase => String::from_str("Coinbase"),
            Source::Kraken => String::from_str("Kraken"),
        }
    }
}

pub type Asset = String;

pub type FeedId = String;

/// The id of the feed of `asset` on `source`: the source's name, `_`, the asset.
pub open spec fn feed_key(source: Source, asset: Seq<char>) -> Seq<char> {
    source.name_of() + "_"@ + asset
}

/// The id of the feed of `asset` on `source`.
pub fn feed_id(source: &Source, asset: &Asset) -> (r: FeedId)
    ensures
        r@ == feed_key(*source, asset@),
{
    source.name().concat("_").concat(asset.as_str())
}

/// One price feed of the index of an asset.
#[derive(Debug, Clone)]
pub struct PriceFeedConfig {
    pub source: Source,
    pub asset: Asset,
    pub smoothing: Option<SmoothingAlgorithm>,
    pub url_pattern: String,
    /// The share, in percent, of the feed in the index of its asset.
    pub weight: u32,
    pub enabled: bool,
    pub fail_count_warn: Option<u32>,
}

pub struct PriceFeedConfigView {
    pub source: Source,
    pub asset: Seq<char>,
    pub smoothing: Option<SmoothingAlgorithm>,
    pub url_pattern: Seq<char>,
    pub weight: u32,
    pub enabled: bool,
    pub fail_count_warn: Option<u32>,
}

impl View for PriceFeedConfig {
    type V = PriceFeedConfigView;

    open spec fn view(&self) -> PriceFeedConfigView {
        PriceFeedConfigView {
            source: self.source,
            asset: self.asset@,
            smoothing: self.smoothing,
            url_pattern: self.url_pattern@,
            weight: self.weight,
            enabled: self.enabled,
            fail_count_warn: self.fail_count_warn,
        }
    }
}

impl PriceFeedConfig {
    /// The id of the feed.
    pub fn key(&self) -> (r: FeedId)
        ensures
            r@ == feed_key(self.source, self.asset@),
    {
        feed_id(&self.source, &self.asset)
    }

    /// The url of the feed: its pattern as it stands.
    pub fn url(&self) -> (r: String)
        ensures
            r@ == self.url_pattern@,
    {
        self.url_pattern.clone()
    }

    pub fn duplicate(&self) -> (r: PriceFeedConfig)
        ensures
            r@ == self@,
    {
        PriceFeedConfig {
            source: self.source,
            asset: self.asset.clone(),
            smoothing: self.smoothing,
            url_pattern: self.url_pattern.clone(),
            weight: self.weight,
            enabled: self.enabled,
            fail_count_warn: self.fail_count_warn,
        }
    }

    pub fn same_as(&self, other: &PriceFeedConfig) -> (r: bool)
        ensures
            r == (self@ == other@),
    {
        let same_warn = match (self.fail_count_warn, other.fail_count_warn) {
            (Some(a), Some(b)) => a == b,
            (None, None) => true,
            _ => false,
        };
        let same_smoothing = match (self.smoothing, other.smoothing) {
            (Some(a), Some(b)) => a == b,
            (None, None) => true,
            _ => false,
        };
        self.source == other.source && self.asset == other.asset && same_smoothing
            && self.url_pattern == other.url_pattern && self.weight == other.weight && self.enabled
            == other.enabled && same_warn
    }
}

/// Where the index is sent.
#[derive(Debug, Clone)]
pub struct DownstreamConfig {
    pub url: String,
}

/// The configuration of the index collector: the feeds of each asset, and where the index
/// goes.
pub struct IndexCollectorAppConfig {
    pub price_feeds: Vec<(Asset, Vec<PriceFeedConfig>)>,
    pub downstream: DownstreamConfig,
}

/// The sum of the weights of a list of feeds.
pub open spec fn weights_sum(feeds: Seq<PriceFeedConfigView>) -> nat
    decreases feeds.len(),
{
    if feeds.len() == 0 {
        0
    } else {
        weights_sum(feeds.drop_last()) + (feeds.last().weight as nat)
    }
}

/// Whether the weights of the feeds of every asset sum to 100.
pub open spec fn weights_valid(groups: Seq<(Seq<char>, Seq<PriceFeedConfigView>)>) -> bool {
    forall|i: int| 0 <= i < groups.len() ==> weights_sum(#[trigger] groups[i].1) == 100
}

/// The text of the error for an asset whose weights do not sum to 100.
pub open spec fn weights_error(asset: Seq<char>) -> Seq<char> {
    "Weights of "@ + asset + " do not sum to 100"@
}

proof fn lemma_weights_sum_grows(feeds: Seq<PriceFeedConfigView>, j: int)
    requires
        0 <= j <= feeds.len(),
    ensures
        weights_sum(feeds.take(j)) <= weights_sum(feeds),
    decreases feeds.len(),
{
    if j < feeds.len() {
        lemma_weights_sum_grows(feeds.drop_last(), j);
        assert(feeds.drop_last().take(j) =~= feeds.take(j));
    } else {
        assert(feeds.take(j) =~= feeds);
    }
}

fn group_weights_sum_to_100(feeds: &Vec<PriceFeedConfig>) -> (r: bool)
    ensures
        r == (weights_sum(feeds@.map_values(|f: PriceFeedConfig| f@)) == 100),
{
    let ghost fv = feeds@.map_values(|f: PriceFeedConfig| f@);
    let n = feeds.len();
    let mut sum: u64 = 0;
    let mut i: usize = 0;
    while i < n
        invariant
            n == feeds@.len(),
            fv == feeds@.map_values(|f: PriceFeedConfig| f@),
            i <= n,
            sum == weights_sum(fv.take(i as int)),
            sum <= 100,
        decreases n - i,
    {
        proof {
            assert(fv.take(i + 1).drop_last() =~= fv.take(i as int));
        }
        sum = sum + feeds[i].weight as u64;
        if sum > 100 {
            proof {
                lemma_weights_sum_grows(fv, i + 1);
            }
            return false;
        }
        i = i + 1;
    }
    proof {
        assert(fv.take(n as int) =~= fv);
    }
    sum == 100
}

impl IndexCollectorAppConfig {
    /// Checks that the weights of the feeds of every asset sum to 100; the error names the
    /// first asset whose weights do not.
    pub fn validate(&self) -> (r: Result<(), String>)
        ensures
            r is Ok == weights_valid(groups_view(self.price_feeds@)),
            r matches Err(e) ==> exists|i: int|
                0 <= i < self.price_feeds@.len() && e@ == weights_error(
                    #[trigger] self.price_feeds@[i].0@,
                ) && !(weights_sum(groups_view(self.price_feeds@)[i].1) == 100) && forall|j: int|
                    0 <= j < i ==> weights_sum(#[trigger] groups_view(self.price_feeds@)[j].1)
                        == 100,
    {
        let ghost groups = groups_view(self.price_feeds@);
        let n = self.price_feeds.len();
        let mut i: usize = 0;
        while i < n
            invariant
                n == self.price_feeds@.len(),
                groups == groups_view(self.price_feeds@),
                i <= n,
                forall|j: int| 0 <= j < i ==> weights_sum(#[trigger] groups[j].1) == 100,
            decreases n - i,
        {
            let group = &self.price_feeds[i];
            if !group_weights_sum_to_100(&group.1) {
                let msg = String::from_str("Weights of ").concat(group.0.as_str()).concat(
                    " do not sum to 100",
                );
                assert(groups[i as int].1 == group.1@.map_values(|f: PriceFeedConfig| f@));
                return Err(msg);
            }
            i = i + 1;
        }
        Ok(())
    }
}

pub open spec fn groups_view(groups: Seq<(Asset, Vec<PriceFeedConfig>)>) -> Seq<
    (Seq<char>, Seq<PriceFeedConfigView>),
> {
    groups.map_values(
        |g: (Asset, Vec<PriceFeedConfig>)| (g.0@, g.1@.map_values(|f: PriceFeedConfig| f@)),
    )
}

/// The feeds of all the groups, group after group.
pub open spec fn all_feeds(groups: Seq<(Seq<char>, Seq<PriceFeedConfigView>)>) -> Seq<
    PriceFeedConfigView,
>
    decreases groups.len(),
{
    if groups.len() == 0 {
        Seq::empty()
    } else {
        all_feeds(groups.drop_last()) + groups.last().1
    }
}

/// Each feed id with the last feed of the list that has it.
pub open spec fn feeds_by_id(feeds: Seq<PriceFeedConfigView>) -> Map<Seq<char>, PriceFeedConfigView>
    decreases feeds.len(),
{
    if feeds.len() == 0 {
        Map::empty()
    } else {
        feeds_by_id(feeds.drop_last()).insert(
            feed_key(feeds.last().source, feeds.last().asset),
            feeds.last(),
        )
    }
}

pub struct IndexFeedsView {
    pub config: Map<Seq<char>, PriceFeedConfigView>,
    /// The smoothing installed for each feed that has one.
    pub smoothing: Map<Seq<char>, SmoothingAlgorithm>,
}

/// Takes one feed: a feed that is known as it is changes nothing; any other replaces the
/// known one, and where it names a smoothing a fresh smoothing of that kind is installed
/// for it (the second result), where it names none the feed's smoothing is dropped.
pub open spec fn register(v: IndexFeedsView, cfg: PriceFeedConfigView) -> (
    IndexFeedsView,
    Option<(Seq<char>, SmoothingAlgorithm)>,
) {
    let k = feed_key(cfg.source, cfg.asset);
    if v.config.contains_key(k) && v.config[k] == cfg {
        (v, None)
    } else {
        match cfg.smoothing {
            Some(a) => (
                IndexFeedsView {
                    config: v.config.insert(k, cfg),
                    smoothing: v.smoothing.insert(k, a),
                },
                Some((k, a)),
            ),
            None => (
                IndexFeedsView {
                    config: v.config.insert(k, cfg),
                    smoothing: v.smoothing.remove(k),
                },
                None,
            ),
        }
    }
}

/// Takes the feeds one after the other; the second result lists the smoothings installed,
/// in order.
pub open spec fn register_all(v: IndexFeedsView, feeds: Seq<PriceFeedConfigView>) -> (
    IndexFeedsView,
    Seq<(Seq<char>, SmoothingAlgorithm)>,
)
    decreases feeds.len(),
{
    if feeds.len() == 0 {
        (v, Seq::empty())
    } else {
        let (v1, installed) = register_all(v, feeds.drop_last());
        let (v2, fresh) = register(v1, feeds.last());
        match fresh {
            Some(x) => (v2, installed.push(x)),
            None => (v2, installed),
        }
    }
}

/// The feeds after a configuration is applied, with the smoothings installed on the way:
/// all its feeds are taken, then feeds that it does not have are dropped with their
/// smoothing.
pub open spec fn reconfigured(
    v: IndexFeedsView,
    groups: Seq<(Seq<char>, Seq<PriceFeedConfigView>)>,
) -> (IndexFeedsView, Seq<(Seq<char>, SmoothingAlgorithm)>) {
    let feeds = all_feeds(groups);
    let (v2, installed) = register_all(v, feeds);
    let keys = feeds_by_id(feeds).dom();
    (
        IndexFeedsView { config: v2.config.restrict(keys), smoothing: v2.smoothing.restrict(keys) },
        installed,
    )
}

/// The configured feeds of the index collector and the kind of smoothing installed for each.
pub struct IndexFeeds {
    config: AssocMap<FeedId, PriceFeedConfig>,
    smoothing: AssocMap<FeedId, SmoothingAlgorithm>,
}

impl View for IndexFeeds {
    type V = IndexFeedsView;

    closed spec fn view(&self) -> IndexFeedsView {
        IndexFeedsView {
            config: self.config@.map_values(|f: PriceFeedConfig| f@),
            smoothing: self.smoothing@,
        }
    }
}

impl IndexFeeds {
    pub closed spec fn wf(&self) -> bool {
        &&& self.config.wf()
        &&& self.smoothing.wf()
    }

    /// The feeds of `map`, with their smoothings; the second result lists the smoothings
    /// to install.
    pub fn new(map: Vec<(Asset, Vec<PriceFeedConfig>)>) -> (r: (
        IndexFeeds,
        Vec<(FeedId, SmoothingAlgorithm)>,
    ))
        ensures
            r.0.wf(),
            (r.0@, r.1@.map_values(|x: (FeedId, SmoothingAlgorithm)| (x.0@, x.1))) == reconfigured(
                IndexFeedsView { config: Map::empty(), smoothing: Map::empty() },
                groups_view(map@),
            ),
    {
        let mut feeds = IndexFeeds { config: AssocMap::new(), smoothing: AssocMap::new() };
        proof {
            assert(feeds@.config =~= Map::empty());
        }
        let installed = feeds.init(map);
        (feeds, installed)
    }

    /// Applies a configuration: see `reconfigured`. The result lists the smoothings to
    /// install, in order; each replaces the one that its feed had.
    pub fn init(&mut self, map: Vec<(Asset, Vec<PriceFeedConfig>)>) -> (r: Vec<
        (FeedId, SmoothingAlgorithm),
    >)
        requires
            old(self).wf(),
        ensures
            final(self).wf(),
            (final(self)@, r@.map_values(|x: (FeedId, SmoothingAlgorithm)| (x.0@, x.1)))
                == reconfigured(old(self)@, groups_view(map@)),
            final(self)@.config == feeds_by_id(all_feeds(groups_view(map@))),
    {
        let ghost groups = groups_view(map@);
        let ghost start = self@;
        let mut new_config: AssocMap<FeedId, PriceFeedConfig> = AssocMap::new();
        let mut installed: Vec<(FeedId, SmoothingAlgorithm)> = Vec::new();
        let ng = map.len();
        let mut g: usize = 0;
        while g < ng
            invariant
                ng == map@.len(),
                groups == groups_view(map@),
                g <= ng,
                new_config.wf(),
                self.wf(),
                new_config@.map_values(|f: PriceFeedConfig| f@) == feeds_by_id(
                    all_feeds(groups.take(g as int)),
                ),
                (self@, installed@.map_values(|x: (FeedId, SmoothingAlgorithm)| (x.0@, x.1)))
                    == register_all(start, all_feeds(groups.take(g as int))),
            decreases ng - g,
        {
            let feeds = &map[g].1;
            let ghost prefix = all_feeds(groups.take(g as int));
            let ghost grp = groups[g as int].1;
            assert(grp == feeds@.map_values(|f: PriceFeedConfig| f@));
            let nf = feeds.len();
            let mut j: usize = 0;
            while j < nf
                invariant
                    nf == feeds@.len(),
                    grp == feeds@.map_values(|f: PriceFeedConfig| f@),
                    j <= nf,
                    new_config.wf(),
                    self.wf(),
                    new_config@.map_values(|f: PriceFeedConfig| f@) == feeds_by_id(
                        prefix + grp.take(j as int),
                    ),
                    (self@, installed@.map_values(|x: (FeedId, SmoothingAlgorithm)| (x.0@, x.1)))
                        == register_all(start, prefix + grp.take(j as int)),
                decreases nf - j,
            {
                let cfg = &feeds[j];
                let key = cfg.key();
                let ghost before = self@;
                new_config.insert(cfg.key(), cfg.duplicate());
                let skip = match self.config.get(&key) {
                    Some(existing) => existing.same_as(cfg),
                    None => false,
                };
                if !skip {
                    self.config.insert(cfg.key(), cfg.duplicate());
                    match cfg.smoothing {
                        Some(a) => {
                            self.smoothing.insert(cfg.key(), a);
                            installed.push((key, a));
                        },
                        None => {
                            self.smoothing.remove(&key);
                        },
                    }
                }
                proof {
                    let s1 = prefix + grp.take(j + 1);
                    assert(s1.drop_last() =~= prefix + grp.take(j as int));
                    assert(s1.last() == cfg@);
                    assert(new_config@.map_values(|f: PriceFeedConfig| f@) =~= feeds_by_id(s1));
                    let k = feed_key(cfg@.source, cfg@.asset);
                    assert(before.config.contains_key(k) == self.config@.contains_key(k) || !skip);
                    if skip {
                        assert(self@.config =~= before.config);
                    } else {
                        assert(self@.config =~= before.config.insert(k, cfg@));
                    }
                    assert(installed@.map_values(|x: (FeedId, SmoothingAlgorithm)| (x.0@, x.1))
                        =~= register_all(start, s1).1);
                }
                j = j + 1;
            }
            proof {
                assert(grp.take(nf as int) =~= grp);
                assert(groups.take(g + 1).drop_last() =~= groups.take(g as int));
                assert(all_feeds(groups.take(g + 1)) == prefix + grp);
            }
            g = g + 1;
        }
        let ghost mid = self@;
        self.config.retain_keys(&new_config);
        self.smoothing.retain_keys(&new_config);
        proof {
            assert(groups.take(ng as int) =~= groups);
            let fb = feeds_by_id(all_feeds(groups));
            assert(new_config@.dom() =~= fb.dom()) by {
                assert forall|k: Seq<char>|
                    new_config@.dom().contains(k) == fb.dom().contains(k) by {
                    assert(new_config@.map_values(|f: PriceFeedConfig| f@).dom().contains(k)
                        == new_config@.dom().contains(k));
                }
            }
            assert(self@.config =~= mid.config.restrict(fb.dom()));
            assert(self@.smoothing =~= mid.smoothing.restrict(fb.dom()));
            lemma_reconfigured_config(start, groups);
        }
        installed
    }

    /// Applies a configuration whose weights are valid (see `init`); one whose weights
    /// are not is refused and changes nothing.
    pub fn apply(&mut self, config: IndexCollectorAppConfig) -> (r: Result<
        Vec<(FeedId, SmoothingAlgorithm)>,
        String,
    >)
        requires
            old(self).wf(),
        ensures
            final(self).wf(),
            r is Ok == weights_valid(groups_view(config.price_feeds@)),
            r matches Ok(installed) ==> (final(self)@, installed@.map_values(
                |x: (FeedId, SmoothingAlgorithm)| (x.0@, x.1),
            )) == reconfigured(old(self)@, groups_view(config.price_feeds@)),
            r is Ok ==> final(self)@.config == feeds_by_id(all_feeds(groups_view(config.price_feeds@))),
            r is Err ==> final(self)@ == old(self)@,
    {
        match config.validate() {
            Ok(()) => Ok(self.init(config.price_feeds)),
            Err(e) => Err(e),
        }
    }

    /// The weight of the feed `feed_id`, where it is configured.
    pub fn weight(&self, feed_id: &FeedId) -> (r: Option<u32>)
        requires
            self.wf(),
        ensures
            r is Some == self@.config.contains_key(feed_id@),
            r matches Some(w) ==> w == self@.config[feed_id@].weight,
    {
        match self.config.get(feed_id) {
            Some(c) => Some(c.weight),
            None => None,
        }
    }

    /// The feed configured under `feed_id`.
    pub fn feed_config(&self, feed_id: &FeedId) -> (r: Option<&PriceFeedConfig>)
        requires
            self.wf(),
        ensures
            r is Some == self@.config.contains_key(feed_id@),
            r matches Some(f) ==> f@ == self@.config[feed_id@],
    {
        self.config.get(feed_id)
    }

    /// The kind of smoothing installed for `feed_id`.
    pub fn smoothing(&self, feed_id: &FeedId) -> (r: Option<SmoothingAlgorithm>)
        requires
            self.wf(),
        ensures
            r is Some == self@.smoothing.contains_key(feed_id@),
            r matches Some(a) ==> a == self@.smoothing[feed_id@],
    {
        match self.smoothing.get(feed_id) {
            Some(a) => Some(*a),
            None => None,
        }
    }
}

/// Whether `t` occurs in `s`.
pub open spec fn has_text(s: Seq<char>, t: Seq<char>) -> bool {
    exists|i: int| 0 <= i && i + t.len() <= s.len() && #[trigger] s.subrange(i, i + t.len()) == t
}

/// Whether `t` occurs in `s`: a feed counts towards the index of an asset whose name
/// occurs in the feed's id.
pub fn contains_text(s: &str, t: &str) -> (r: bool)
    ensures
        r == has_text(s@, t@),
{
    let n = s.unicode_len();
    let m = t.unicode_len();
    if m > n {
        proof {
            assert forall|i: int| 0 <= i && i + t@.len() <= s@.len() implies #[trigger] s@.subrange(
                i,
                i + t@.len(),
            ) != t@ by {}
        }
        return false;
    }
    let mut i: usize = 0;
    while i <= n - m
        invariant
            n == s@.len(),
            m == t@.len(),
            m <= n,
            i <= n - m + 1,
            forall|a: int| 0 <= a < i ==> #[trigger] s@.subrange(a, a + m) != t@,
        decreases n - m + 1 - i,
    {
        let mut j: usize = 0;
        let mut same = true;
        while j < m
            invariant
                n == s@.len(),
                m == t@.len(),
                i + m <= n,
                j <= m,
                same == (forall|b: int| 0 <= b < j ==> s@[i + b] == t@[b]),
            decreases m - j,
        {
            if s.get_char(i + j) != t.get_char(j) {
                same = false;
            }
            j = j + 1;
        }
        if same {
            proof {
                assert(s@.subrange(i as int, i + m) =~= t@);
            }
            return true;
        }
        proof {
            let b = choose|b: int| 0 <= b < m && s@[i + b] != t@[b];
            assert(s@.subrange(i as int, i + m)[b] != t@[b]);
        }
        i = i + 1;
    }
    proof {
        assert forall|a: int| 0 <= a && a + t@.len() <= s@.len() implies #[trigger] s@.subrange(
            a,
            a + t@.len(),
        ) != t@ by {}
    }
    false
}

proof fn lemma_register_all_config(v: IndexFeedsView, feeds: Seq<PriceFeedConfigView>)
    ensures
        register_all(v, feeds).0.config == v.config.union_prefer_right(feeds_by_id(feeds)),
    decreases feeds.len(),
{
    if feeds.len() == 0 {
        assert(v.config.union_prefer_right(feeds_by_id(feeds)) =~= v.config);
    } else {
        let prev = feeds.drop_last();
        lemma_register_all_config(v, prev);
        let v1 = register_all(v, prev).0;
        let f = feeds.last();
        let k = feed_key(f.source, f.asset);
        assert(register(v1, f).0.config =~= v1.config.insert(k, f));
        assert(v.config.union_prefer_right(feeds_by_id(feeds)) =~= v.config.union_prefer_right(
            feeds_by_id(prev),
        ).insert(k, f));
    }
}

/// After a configuration is applied, the known feeds are exactly the feeds of the
/// configuration, each as the last feed with its id gives it, every field included: a change
/// of url or of `enabled` replaces the known feed like any other change.
pub proof fn lemma_reconfigured_config(
    v: IndexFeedsView,
    groups: Seq<(Seq<char>, Seq<PriceFeedConfigView>)>,
)
    ensures
        reconfigured(v, groups).0.config == feeds_by_id(all_feeds(groups)),
{
    let feeds = all_feeds(groups);
    lemma_register_all_config(v, feeds);
    assert(reconfigured(v, groups).0.config =~= feeds_by_id(feeds));
}

proof fn lemma_register_all_smoothing(v: IndexFeedsView, feeds: Seq<PriceFeedConfigView>)
    requires
        forall|k: Seq<char>| #[trigger]
            v.smoothing.contains_key(k) ==> v.config.contains_key(k) && v.config[k].smoothing
                == Some(v.smoothing[k]),
        forall|k: Seq<char>| #[trigger]
            v.config.contains_key(k) && v.config[k].smoothing is Some ==> v.smoothing.contains_key(k),
    ensures
        ({
            let w = register_all(v, feeds).0;
            &&& forall|k: Seq<char>| #[trigger]
                w.smoothing.contains_key(k) ==> w.config.contains_key(k) && w.config[k].smoothing
                    == Some(w.smoothing[k])
            &&& forall|k: Seq<char>| #[trigger]
                w.config.contains_key(k) && w.config[k].smoothing is Some ==> w.smoothing.contains_key(k)
        }),
    decreases feeds.len(),
{
    if feeds.len() > 0 {
        let prev = feeds.drop_last();
        lemma_register_all_smoothing(v, prev);
        let v1 = register_all(v, prev).0;
        let f = feeds.last();
        let w = register(v1, f).0;
        assert(register_all(v, feeds).0 == w);
        assert forall|k: Seq<char>| #[trigger] w.smoothing.contains_key(k) implies w.config.contains_key(k)
            && w.config[k].smoothing == Some(w.smoothing[k]) by {
            assert(v1.smoothing.contains_key(k) ==> v1.config.contains_key(k));
        }
        assert forall|k: Seq<char>| #[trigger]
            w.config.contains_key(k) && w.config[k].smoothing is Some implies w.smoothing.contains_key(k) by {
            assert(v1.config.contains_key(k) && v1.config[k].smoothing is Some ==> v1.smoothing.contains_key(k));
        }
    }
}

/// Where each known feed has a smoothing exactly when its configuration names one, and of
/// that kind, applying a configuration keeps it so: a feed whose new configuration names no
/// smoothing has none, one that names a kind has that kind.
pub proof fn lemma_reconfigured_smoothing(
    v: IndexFeedsView,
    groups: Seq<(Seq<char>, Seq<PriceFeedConfigView>)>,
)
    requires
        forall|k: Seq<char>| #[trigger]
            v.smoothing.contains_key(k) ==> v.config.contains_key(k) && v.config[k].smoothing
                == Some(v.smoothing[k]),
        forall|k: Seq<char>| #[trigger]
            v.config.contains_key(k) && v.config[k].smoothing is Some ==> v.smoothing.contains_key(k),
    ensures
        ({
            let w = reconfigured(v, groups).0;
            &&& forall|k: Seq<char>| #[trigger]
                w.smoothing.contains_key(k) ==> w.config.contains_key(k) && w.config[k].smoothing
                    == Some(w.smoothing[k])
            &&& forall|k: Seq<char>| #[trigger]
                w.config.contains_key(k) && w.config[k].smoothing is Some ==> w.smoothing.contains_key(k)
        }),
{
    lemma_register_all_smoothing(v, all_feeds(groups));
}

} // verus!
