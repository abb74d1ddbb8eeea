use crate::app_config::{feeds_by_source, AppConfig, FeedConfig, FeedConfigView};
use crate::assoc_map::AssocMap;
use crate::control::TaskState;
use crate::order_book_collector::{OrderBook, Source};
use vstd::prelude::*;

verus! {

/// A message to the manager of the order book feeds.
pub enum PriceFeedManagerMessage {
    ConfigChange(AppConfig),
    Stop,
}

/// An error of an order book feed.
#[derive(Debug)]
pub struct FeedErr {
    pub code: Option<u16>,
    pub message: String,
}

impl FeedErr {
    pub fn new(code: Option<u16>, message: String) -> (r: FeedErr)
        ensures
            r.code == code,
            r.message@ == message@,
    {
        FeedErr { code, message }
    }
}

/// The order book feed of Uniswap, which for now gives an empty book.
pub struct UniswapFeed {}

impl UniswapFeed {
    pub fn new() -> (r: UniswapFeed) {
        UniswapFeed {  }
    }

    /// The book that the feed gives at `now`: an empty BTCUSDT book stamped `now`.
    pub fn book_at(&self, now: i64) -> (r: OrderBook)
        ensures
            r.source == Source::Uniswap,
            r.asset@ == "BTCUSDT"@,
            r.timestamp == now,
            r.bids@.len() == 0,
            r.asks@.len() == 0,
    {
        OrderBook {
            source: Source::Uniswap,
            asset: String::from_str("BTCUSDT"),
            timestamp: now,
            bids: Vec::new(),
            asks: Vec::new(),
        }
    }
}

/// What a fetch task does next.
#[derive(Debug, Clone, Copy, PartialEq, Eq, Structural)]
pub enum FetchStep {
    /// The task ends.
    Exit,
    /// The task waits a while and looks again.
    Wait,
    /// The task fetches a book.
    Fetch,
}

/// The step that a fetch task takes on reading its state flag: it ends when stopped, waits
/// when paused and fetches when running.
pub open spec fn step_of(flag: u8) -> FetchStep {
    match TaskState::state_of(flag) {
        TaskState::Stopped => FetchStep::Exit,
        TaskState::Paused => FetchStep::Wait,
        TaskState::Running => FetchStep::Fetch,
    }
}

/// The steps of a fetch task whose flag reads `flags` in turn, one step per reading, up to and
/// including the first exit.
pub open spec fn fetch_run(flags: Seq<u8>) -> Seq<FetchStep>
    decreases flags.len(),
{
    if flags.len() == 0 {
        Seq::empty()
    } else if step_of(flags[0]) == FetchStep::Exit {
        seq![FetchStep::Exit]
    } else {
        seq![step_of(flags[0])] + fetch_run(flags.drop_first())
    }
}

proof fn lemma_fetch_run_steps(flags: Seq<u8>)
    ensures
        fetch_run(flags).len() <= flags.len(),
        forall|i: int| 0 <= i < fetch_run(flags).len() ==> #[trigger] fetch_run(flags)[i] == step_of(flags[i]),
        forall|i: int|
            0 <= i < fetch_run(flags).len() - 1 ==> #[trigger] fetch_run(flags)[i] != FetchStep::Exit,
    decreases flags.len(),
{
    if flags.len() > 0 && step_of(flags[0]) != FetchStep::Exit {
        let rest = flags.drop_first();
        lemma_fetch_run_steps(rest);
        let r = fetch_run(flags);
        let t = fetch_run(rest);
        assert(r == seq![step_of(flags[0])] + t);
        assert forall|i: int| 0 <= i < r.len() implies #[trigger] r[i] == step_of(flags[i]) by {
            if i > 0 {
                assert(r[i] == t[i - 1]);
                assert(rest[i - 1] == flags[i]);
            }
        }
        assert forall|i: int| 0 <= i < r.len() - 1 implies #[trigger] r[i] != FetchStep::Exit by {
            if i > 0 {
                assert(r[i] == t[i - 1]);
            }
        }
    }
}

proof fn lemma_fetch_run_stops_at(flags: Seq<u8>, k: int)
    requires
        0 <= k < flags.len(),
        TaskState::state_of(flags[k]) == TaskState::Stopped,
        forall|j: int| 0 <= j < k ==> TaskState::state_of(#[trigger] flags[j]) != TaskState::Stopped,
    ensures
        fetch_run(flags).len() == k + 1,
    decreases k,
{
    if k > 0 {
        let rest = flags.drop_first();
        assert(TaskState::state_of(flags[0]) != TaskState::Stopped);
        assert(rest[k - 1] == flags[k]);
        assert forall|j: int| 0 <= j < k - 1 implies TaskState::state_of(#[trigger] rest[j])
            != TaskState::Stopped by {
            assert(rest[j] == flags[j + 1]);
        }
        lemma_fetch_run_stops_at(rest, k - 1);
    }
}

proof fn lemma_fetch_run_never_stopped(flags: Seq<u8>)
    requires
        forall|j: int| 0 <= j < flags.len() ==> TaskState::state_of(#[trigger] flags[j]) != TaskState::Stopped,
    ensures
        fetch_run(flags).len() == flags.len(),
    decreases flags.len(),
{
    if flags.len() > 0 {
        let rest = flags.drop_first();
        assert(TaskState::state_of(flags[0]) != TaskState::Stopped);
        assert forall|j: int| 0 <= j < rest.len() implies TaskState::state_of(#[trigger] rest[j])
            != TaskState::Stopped by {
            assert(rest[j] == flags[j + 1]);
        }
        lemma_fetch_run_never_stopped(rest);
    }
}

/// Over a run of a fetch task: the task fetches exactly at the readings of a running flag and
/// waits at those of a paused one; it ends at the first reading of a stopped flag, which is its
/// last step; where no stopped flag is read, it takes one step per reading and never ends.
pub proof fn lemma_fetch_run(flags: Seq<u8>)
    ensures
        fetch_run(flags).len() <= flags.len(),
        forall|i: int|
            0 <= i < fetch_run(flags).len() ==> ((#[trigger] fetch_run(flags)[i] == FetchStep::Fetch)
                <==> TaskState::state_of(flags[i]) == TaskState::Running),
        forall|i: int|
            0 <= i < fetch_run(flags).len() ==> ((#[trigger] fetch_run(flags)[i] == FetchStep::Wait)
                <==> TaskState::state_of(flags[i]) == TaskState::Paused),
        forall|i: int|
            0 <= i < fetch_run(flags).len() - 1 ==> #[trigger] fetch_run(flags)[i] != FetchStep::Exit,
        forall|k: int|
            0 <= k < flags.len() && TaskState::state_of(#[trigger] flags[k]) == TaskState::Stopped && (
            forall|j: int| 0 <= j < k ==> TaskState::state_of(flags[j]) != TaskState::Stopped) ==> {
                &&& fetch_run(flags).len() == k + 1
                &&& fetch_run(flags)[k] == FetchStep::Exit
            },
        (forall|j: int| 0 <= j < flags.len() ==> TaskState::state_of(#[trigger] flags[j]) != TaskState::Stopped)
            ==> fetch_run(flags).len() == flags.len(),
{
    lemma_fetch_run_steps(flags);
    let r = fetch_run(flags);
    assert forall|i: int| 0 <= i < r.len() implies ((#[trigger] r[i] == FetchStep::Fetch)
        <==> TaskState::state_of(flags[i]) == TaskState::Running) && ((r[i] == FetchStep::Wait)
        <==> TaskState::state_of(flags[i]) == TaskState::Paused) by {
        assert(r[i] == step_of(flags[i]));
    }
    assert forall|k: int|
        0 <= k < flags.len() && TaskState::state_of(#[trigger] flags[k]) == TaskState::Stopped && (
        forall|j: int| 0 <= j < k ==> TaskState::state_of(flags[j]) != TaskState::Stopped) implies {
            &&& fetch_run(flags).len() == k + 1
            &&& fetch_run(flags)[k] == FetchStep::Exit
        } by {
        lemma_fetch_run_stops_at(flags, k);
        assert(r[k] == step_of(flags[k]));
    }
    if forall|j: int| 0 <= j < flags.len() ==> TaskState::state_of(#[trigger] flags[j]) != TaskState::Stopped {
        lemma_fetch_run_never_stopped(flags);
    }
}

/// A new fetch task starts by fetching where its feed is enabled, else by waiting.
pub proof fn lemma_new_task_first_step(enabled: bool)
    ensures
        step_of(state_for(enabled).flag_of()) == (if enabled {
            FetchStep::Fetch
        } else {
            FetchStep::Wait
        }),
{
}

/// The next step of a fetch task whose state flag reads `flag`.
pub fn fetch_step(flag: u8) -> (r: FetchStep)
    ensures
        r == step_of(flag),
{
    match TaskState::from_flag(flag) {
        TaskState::Stopped => FetchStep::Exit,
        TaskState::Paused => FetchStep::Wait,
        TaskState::Running => FetchStep::Fetch,
    }
}

/// What the manager tells the runtime to do with the fetch tasks.
pub enum TaskCommand {
    /// Start a fetch task for the feed, running where the feed is enabled, else paused.
    Start(FeedConfig),
    /// Set the state of the task of the source.
    SetState(Source, TaskState),
    /// Stop the task of the source and forget it.
    Stop(Source),
}

pub enum TaskCommandView {
    Start(FeedConfigView),
    SetState(Source, TaskState),
    Stop(Source),
}

impl View for TaskCommand {
    type V = TaskCommandView;

    open spec fn view(&self) -> TaskCommandView {
        match self {
            TaskCommand::Start(f) => TaskCommandView::Start(f@),
            TaskCommand::SetState(s, t) => TaskCommandView::SetState(*s, *t),
            TaskCommand::Stop(s) => TaskCommandView::Stop(*s),
        }
    }
}

pub open spec fn state_for(enabled: bool) -> TaskState {
    if enabled {
        TaskState::Running
    } else {
        TaskState::Paused
    }
}

/// The sources of a list of feeds.
pub open spec fn sources_of(feeds: Seq<FeedConfigView>) -> Set<Source> {
    feeds_by_source(feeds).dom()
}

/// The commands for a list of feeds, given the sources that already have tasks: a feed whose
/// source has a task (from before or from an earlier feed of the list) sets its state, any
/// other starts a task.
pub open spec fn config_commands(known: Set<Source>, feeds: Seq<FeedConfigView>) -> Seq<
    TaskCommandView,
>
    decreases feeds.len(),
{
    if feeds.len() == 0 {
        Seq::empty()
    } else {
        let prev = feeds.drop_last();
        let f = feeds.last();
        let cmd = if known.contains(f.source) || sources_of(prev).contains(f.source) {
            TaskCommandView::SetState(f.source, state_for(f.enabled))
        } else {
            TaskCommandView::Start(f)
        };
        config_commands(known, prev).push(cmd)
    }
}

/// The tasks after a list of feeds is applied: each source of the list, in the state of its
/// last feed.
pub open spec fn tasks_for(feeds: Seq<FeedConfigView>) -> Map<Source, TaskState> {
    feeds_by_source(feeds).map_values(|f: FeedConfigView| state_for(f.enabled))
}

proof fn lemma_config_commands_len(known: Set<Source>, feeds: Seq<FeedConfigView>)
    ensures
        config_commands(known, feeds).len() == feeds.len(),
    decreases feeds.len(),
{
    if feeds.len() > 0 {
        lemma_config_commands_len(known, feeds.drop_last());
    }
}

/// What applying the feeds `fv` to the tasks `before` does: the tasks become `after`, one per
/// source of the feeds in the state of its last feed, and the commands `r` are, first, one per
/// feed in order (see `config_commands`), then a stop for each source that had a task and has
/// no feed any more, each once.
pub open spec fn config_applied(
    before: Map<Source, TaskState>,
    after: Map<Source, TaskState>,
    fv: Seq<FeedConfigView>,
    r: Seq<TaskCommand>,
) -> bool {
    let head = config_commands(before.dom(), fv);
    &&& after == tasks_for(fv)
    &&& r.len() >= head.len()
    &&& forall|i: int| 0 <= i < head.len() ==> #[trigger] r[i]@ == head[i]
    &&& forall|i: int|
        head.len() <= i < r.len() ==> (#[trigger] r[i]@ matches TaskCommandView::Stop(s)
            && before.contains_key(s) && !sources_of(fv).contains(s))
    &&& forall|s: Source|
        before.contains_key(s) && !sources_of(fv).contains(s) ==> exists|i: int|
            head.len() <= i < r.len() && #[trigger] r[i]@ == TaskCommandView::Stop(s)
    &&& forall|i: int, j: int| head.len() <= i < j < r.len() ==> #[trigger] r[i]@ != #[trigger] r[j]@
}

/// What stopping all tasks does: every task of `before` stays, stopped, and the commands `r`
/// tell each of them, once, to stop.
pub open spec fn all_stopped(
    before: Map<Source, TaskState>,
    after: Map<Source, TaskState>,
    r: Seq<TaskCommand>,
) -> bool {
    &&& after == before.map_values(|t: TaskState| TaskState::Stopped)
    &&& r.len() == before.len()
    &&& forall|i: int|
        0 <= i < r.len() ==> (#[trigger] r[i]@ matches TaskCommandView::SetState(s, t) && t
            == TaskState::Stopped && before.contains_key(s))
    &&& forall|s: Source|
        before.contains_key(s) ==> exists|i: int|
            0 <= i < r.len() && #[trigger] r[i]@ == TaskCommandView::SetState(s, TaskState::Stopped)
}

/// The fetch tasks that the manager of the order book feeds runs, one per source, and the
/// state that each was told.
pub struct FeedTaskTable {
    tasks: AssocMap<Source, TaskState>,
}

impl View for FeedTaskTable {
    type V = Map<Source, TaskState>;

    closed spec fn view(&self) -> Map<Source, TaskState> {
        self.tasks@
    }
}

impl FeedTaskTable {
    pub closed spec fn wf(&self) -> bool {
        self.tasks.wf()
    }

    pub fn new() -> (r: FeedTaskTable)
        ensures
            r.wf(),
            r@ == Map::<Source, TaskState>::empty(),
    {
        FeedTaskTable { tasks: AssocMap::new() }
    }

    /// Applies the feeds of a configuration. The commands are, first, one per feed in order
    /// (see `config_commands`), then a stop for each source that had a task and has no
    /// feed any more, each once. Afterwards the table has a task for each source of the
    /// feeds, in the state of its last feed.
    pub fn apply_config(&mut self, feeds: &Vec<FeedConfig>) -> (r: Vec<TaskCommand>)
        requires
            old(self).wf(),
        ensures
            final(self).wf(),
            config_applied(old(self)@, final(self)@, feeds@.map_values(|f: FeedConfig| f@), r@),
    {
        let ghost fv = feeds@.map_values(|f: FeedConfig| f@);
        let ghost known = self.tasks@.dom();
        let ghost old_tasks = self.tasks@;
        let mut seen: AssocMap<Source, FeedConfig> = AssocMap::new();
        let mut cmds: Vec<TaskCommand> = Vec::new();
        let n = feeds.len();
        let mut i: usize = 0;
        while i < n
            invariant
                n == feeds@.len(),
                fv == feeds@.map_values(|f: FeedConfig| f@),
                i <= n,
                seen.wf(),
                self.wf(),
                seen@.map_values(|f: FeedConfig| f@) == feeds_by_source(fv.take(i as int)),
                forall|s: Source| #[trigger]
                    self.tasks@.contains_key(s) == (known.contains(s) || seen@.contains_key(s)),
                forall|s: Source| #[trigger]
                    seen@.contains_key(s) ==> self.tasks@[s] == state_for(seen@[s].enabled),
                forall|s: Source| #[trigger]
                    self.tasks@.contains_key(s) && !seen@.contains_key(s) ==> self.tasks@[s]
                        == old_tasks[s],
                cmds@.len() == i,
                forall|j: int| 0 <= j < i ==> #[trigger] cmds@[j]@ == config_commands(
                    known,
                    fv.take(i as int),
                )[j],
            decreases n - i,
        {
            let cfg = &feeds[i];
            let key = cfg.key();
            let state = TaskState::for_enabled(cfg.enabled);
            let ghost prev_cmds = config_commands(known, fv.take(i as int));
            proof {
                let s1 = fv.take(i + 1);
                assert(s1.drop_last() =~= fv.take(i as int));
                assert(s1.last() == cfg@);
                assert(sources_of(fv.take(i as int)) =~= seen@.dom()) by {
                    assert forall|s: Source|
                        sources_of(fv.take(i as int)).contains(s) == seen@.dom().contains(s) by {
                        assert(seen@.map_values(|f: FeedConfig| f@).dom().contains(s)
                            == seen@.dom().contains(s));
                    }
                }
            }
            let existed = self.tasks.contains_key(&key);
            let ghost cmd = if existed {
                TaskCommandView::SetState(cfg@.source, state_for(cfg@.enabled))
            } else {
                TaskCommandView::Start(cfg@)
            };
            proof {
                let s1 = fv.take(i + 1);
                lemma_config_commands_len(known, fv.take(i as int));
                assert(config_commands(known, s1) == prev_cmds.push(cmd));
            }
            if existed {
                self.tasks.insert(key, state);
                cmds.push(TaskCommand::SetState(key, state));
            } else {
                self.tasks.insert(key, state);
                cmds.push(TaskCommand::Start(cfg.duplicate()));
            }
            seen.insert(key, cfg.duplicate());
            proof {
                let s1 = fv.take(i + 1);
                assert(seen@.map_values(|f: FeedConfig| f@) =~= feeds_by_source(s1));
                assert forall|j: int| 0 <= j < i + 1 implies #[trigger] cmds@[j]@
                    == config_commands(known, s1)[j] by {
                    if j < i {
                        assert(cmds@[j]@ == prev_cmds[j]);
                    } else {
                        assert(cmds@[j]@ == cmd);
                    }
                }
            }
            i = i + 1;
        }
        proof {
            assert(fv.take(n as int) =~= fv);
        }
        let ghost head = config_commands(known, fv);
        let ghost head_len = cmds@.len();
        proof {
            lemma_config_commands_len(known, fv);
            assert forall|j: int| 0 <= j < head_len implies #[trigger] cmds@[j]@ == head[j] by {}
        }
        assert(seen@.dom() =~= sources_of(fv)) by {
            assert forall|s: Source| seen@.dom().contains(s) == sources_of(fv).contains(s) by {
                assert(seen@.map_values(|f: FeedConfig| f@).dom().contains(s) == seen@.dom().contains(
                    s,
                ));
            }
        }
        let keys = self.tasks.keys();
        let nk = keys.len();
        let mut k: usize = 0;
        let ghost mut stop_idx: Seq<int> = Seq::empty();
        while k < nk
            invariant
                nk == keys@.len(),
                k <= nk,
                seen.wf(),
                self.wf(),
                seen@.dom() == sources_of(fv),
                head_len == head.len(),
                cmds@.len() == head_len + stop_idx.len(),
                forall|j: int| 0 <= j < head_len ==> #[trigger] cmds@[j]@ == head[j],
                forall|j: int| 0 <= j < keys@.len() ==> self.tasks@.contains_key(#[trigger] keys@[j]@),
                forall|s: Source| #[trigger]
                    self.tasks@.contains_key(s) == (known.contains(s) || seen@.contains_key(s)),
                forall|a: int, b: int|
                    0 <= a < keys@.len() && 0 <= b < keys@.len() && a != b ==> #[trigger] keys@[a]@
                        != #[trigger] keys@[b]@,
                forall|t: int| 0 <= t < stop_idx.len() ==> 0 <= #[trigger] stop_idx[t] < k,
                forall|t: int, u: int|
                    0 <= t < u < stop_idx.len() ==> #[trigger] stop_idx[t] < #[trigger] stop_idx[u],
                forall|t: int|
                    0 <= t < stop_idx.len() ==> {
                        &&& #[trigger] cmds@[head_len + t]@ == TaskCommandView::Stop(keys@[stop_idx[t]]@)
                        &&& !seen@.contains_key(keys@[stop_idx[t]]@)
                    },
                forall|a: int|
                    0 <= a < k && !seen@.contains_key(#[trigger] keys@[a]@) ==> exists|t: int|
                        0 <= t < stop_idx.len() && #[trigger] stop_idx[t] == a,
            decreases nk - k,
        {
            let s = keys[k];
            if !seen.contains_key(&s) {
                let ghost before = cmds@;
                let ghost before_idx = stop_idx;
                cmds.push(TaskCommand::Stop(s));
                proof {
                    stop_idx = stop_idx.push(k as int);
                    assert forall|t: int|
                        0 <= t < stop_idx.len() implies #[trigger] cmds@[head_len + t]@
                        == TaskCommandView::Stop(keys@[stop_idx[t]]@) by {
                        if t < before_idx.len() {
                            assert(cmds@[head_len + t] == before[head_len + t]);
                        }
                    }
                    assert forall|a: int|
                        0 <= a < k + 1 && !seen@.contains_key(#[trigger] keys@[a]@) implies exists|
                        t: int,
                    | 0 <= t < stop_idx.len() && #[trigger] stop_idx[t] == a by {
                        if a == k {
                            assert(stop_idx[before_idx.len() as int] == a);
                        } else {
                            let t = choose|t: int|
                                0 <= t < before_idx.len() && #[trigger] before_idx[t] == a;
                            assert(stop_idx[t] == a);
                        }
                    }
                }
            }
            k = k + 1;
        }
        proof {
            assert forall|i: int|
                head.len() <= i < cmds@.len() implies (#[trigger] cmds@[i]@ matches TaskCommandView::Stop(
                s,
            ) && old_tasks.contains_key(s) && !sources_of(fv).contains(s)) by {
                let t = i - head_len;
                assert(cmds@[head_len + t]@ == TaskCommandView::Stop(keys@[stop_idx[t]]@));
                assert(self.tasks@.contains_key(keys@[stop_idx[t]]@));
            }
            assert forall|i: int, j: int|
                head.len() <= i < j < cmds@.len() implies #[trigger] cmds@[i]@
                != #[trigger] cmds@[j]@ by {
                let t = i - head_len;
                let u = j - head_len;
                assert(cmds@[head_len + t]@ == TaskCommandView::Stop(keys@[stop_idx[t]]@));
                assert(cmds@[head_len + u]@ == TaskCommandView::Stop(keys@[stop_idx[u]]@));
                assert(stop_idx[t] < stop_idx[u]);
                assert(keys@[stop_idx[t]]@ != keys@[stop_idx[u]]@);
            }
            assert forall|s: Source|
                old_tasks.contains_key(s) && !sources_of(fv).contains(s) implies exists|i: int|
                head.len() <= i < cmds@.len() && #[trigger] cmds@[i]@ == TaskCommandView::Stop(s) by {
                assert(self.tasks@.contains_key(s));
                let a = choose|a: int| 0 <= a < keys@.len() && #[trigger] keys@[a]@ == s;
                assert(!seen@.contains_key(keys@[a]@));
                let t = choose|t: int| 0 <= t < stop_idx.len() && #[trigger] stop_idx[t] == a;
                assert(cmds@[head_len + t]@ == TaskCommandView::Stop(keys@[stop_idx[t]]@));
            }
        }
        self.tasks.retain_keys(&seen);
        proof {
            assert(self.tasks@ =~= tasks_for(fv)) by {
                assert forall|s: Source| #[trigger] self.tasks@.contains_key(s) implies self.tasks@[s]
                    == tasks_for(fv)[s] by {
                    assert(seen@.map_values(|f: FeedConfig| f@)[s] == seen@[s]@);
                }
                assert forall|s: Source| tasks_for(fv).contains_key(s) implies #[trigger] self.tasks@.contains_key(s) by {
                    assert(seen@.map_values(|f: FeedConfig| f@).contains_key(s));
                }
            }
        }
        cmds
    }

    /// Tells every task to stop; the tasks stay in the table, stopped.
    pub fn stop_all(&mut self) -> (r: Vec<TaskCommand>)
        requires
            old(self).wf(),
        ensures
            final(self).wf(),
            all_stopped(old(self)@, final(self)@, r@),
    {
        let ghost old_tasks = self.tasks@;
        let keys = self.tasks.keys();
        let nk = keys.len();
        let mut cmds: Vec<TaskCommand> = Vec::new();
        let mut k: usize = 0;
        while k < nk
            invariant
                nk == keys@.len(),
                k <= nk,
                self.wf(),
                cmds@.len() == k,
                forall|j: int| 0 <= j < keys@.len() ==> old_tasks.contains_key(#[trigger] keys@[j]@),
                forall|s: Source| #[trigger]
                    self.tasks@.contains_key(s) == old_tasks.contains_key(s),
                forall|s: Source| #[trigger]
                    self.tasks@.contains_key(s) ==> (self.tasks@[s] == TaskState::Stopped
                        || exists|a: int| k <= a < keys@.len() && keys@[a]@ == s),
                forall|j: int| 0 <= j < k ==> #[trigger] cmds@[j]@ == TaskCommandView::SetState(
                    keys@[j]@,
                    TaskState::Stopped,
                ),
            decreases nk - k,
        {
            let s = keys[k];
            self.tasks.insert(s, TaskState::Stopped);
            cmds.push(TaskCommand::SetState(s, TaskState::Stopped));
            k = k + 1;
        }
        proof {
            assert(self.tasks@ =~= old_tasks.map_values(|t: TaskState| TaskState::Stopped));
            assert forall|s: Source| old_tasks.contains_key(s) implies exists|i: int|
                0 <= i < cmds@.len() && #[trigger] cmds@[i]@ == TaskCommandView::SetState(
                    s,
                    TaskState::Stopped,
                ) by {
                let a = choose|a: int| 0 <= a < keys@.len() && #[trigger] keys@[a]@ == s;
                assert(cmds@[a]@ == TaskCommandView::SetState(s, TaskState::Stopped));
            }
        }
        cmds
    }

    /// Handles a message to the manager: a new configuration applies its feeds, a stop stops
    /// every task.
    pub fn handle(&mut self, msg: PriceFeedManagerMessage) -> (r: Vec<TaskCommand>)
        requires
            old(self).wf(),
        ensures
            final(self).wf(),
            (match msg {
                PriceFeedManagerMessage::ConfigChange(conf) => config_applied(
                    old(self)@,
                    final(self)@,
                    conf@.feeds,
                    r@,
                ),
                PriceFeedManagerMessage::Stop => all_stopped(old(self)@, final(self)@, r@),
            }),
    {
        match msg {
            PriceFeedManagerMessage::ConfigChange(conf) => self.apply_config(&conf.feeds),
            PriceFeedManagerMessage::Stop => self.stop_all(),
        }
    }

    /// The state of the task of `source`.
    pub fn task_state(&self, source: Source) -> (r: Option<TaskState>)
        requires
            self.wf(),
        ensures
            r is Some == self@.contains_key(source),
            r matches Some(t) ==> t == self@[source],
    {
        match self.tasks.get(&source) {
            Some(t) => Some(*t),
            None => None,
        }
    }
}

/// Where every feed's source already has a task, applying the feeds only sets states:
/// nothing is started.
pub proof fn lemma_known_feeds_only_set_states(known: Set<Source>, feeds: Seq<FeedConfigView>)
    requires
        sources_of(feeds).subset_of(known),
    ensures
        forall|i: int|
            0 <= i < config_commands(known, feeds).len() ==> #[trigger] config_commands(
                known,
                feeds,
            )[i] is SetState,
    decreases feeds.len(),
{
    if feeds.len() > 0 {
        let prev = feeds.drop_last();
        assert(sources_of(prev).subset_of(known)) by {
            assert forall|s: Source| sources_of(prev).contains(s) implies known.contains(s) by {
                if s != feeds.last().source {
                    assert(sources_of(feeds).contains(s));
                }
            }
        }
        assert(sources_of(feeds).contains(feeds.last().source));
        lemma_known_feeds_only_set_states(known, prev);
        lemma_config_commands_len(known, prev);
    }
}

/// Applying the same feeds twice gives the same tasks, and the second time nothing is
/// started and nothing stopped.
pub proof fn lemma_reapply_changes_nothing(tasks: Map<Source, TaskState>, feeds: Seq<FeedConfigView>)
    ensures
        tasks_for(feeds).dom() == sources_of(feeds),
        forall|i: int|
            0 <= i < config_commands(tasks_for(feeds).dom(), feeds).len() ==> #[trigger] config_commands(
                tasks_for(feeds).dom(),
                feeds,
            )[i] is SetState,
        forall|s: Source| tasks_for(feeds).contains_key(s) ==> #[trigger] sources_of(feeds).contains(s),
{
    assert(tasks_for(feeds).dom() =~= sources_of(feeds));
    lemma_known_feeds_only_set_states(tasks_for(feeds).dom(), feeds);
}

/// A stop keeps exactly the sources that had tasks, each stopped, and a second stop changes
/// nothing.
pub proof fn lemma_stop_keeps_sources(
    before: Map<Source, TaskState>,
    after: Map<Source, TaskState>,
    r: Seq<TaskCommand>,
    again: Map<Source, TaskState>,
    r2: Seq<TaskCommand>,
)
    requires
        all_stopped(before, after, r),
        all_stopped(after, again, r2),
    ensures
        after.dom() == before.dom(),
        forall|s: Source| #[trigger] after.contains_key(s) ==> after[s] == TaskState::Stopped,
        again == after,
{
    assert(after.dom() =~= before.dom());
    assert(again =~= after);
}

} // verus!
