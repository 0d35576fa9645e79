//! The state behind the desktop window: what the background engine reports
//! to it, what it asks of the engine, and which repositories its feed shows.
use vstd::prelude::*;
use crate::decimal::{decimal, format_u128, format_u64, format_usize};
use crate::engine::CycleResult;
use crate::models::{item_views, RepoItem, RepoView};
use crate::text::{owned, push_all};

verus! {

broadcast use vstd::string::group_string_axioms;

/// What the background engine reports to the window.
pub enum GuiEvent {
    /// New repositories, oldest first.
    NewBatch(Vec<RepoItem>),
    CycleFinished {
        cycle: u64,
        new_count: usize,
        priority_total: usize,
        spam_count: usize,
        duration_ms: u128,
        db_total: usize,
        today_total: usize,
    },
    Status(String),
}

/// What the window asks of the background engine.
#[derive(Debug, Clone, Copy, PartialEq, Eq, Structural)]
pub enum GuiCommand {
    TriggerScan,
    SetPaused(bool),
}

/// The most repositories the feed holds.
pub const FEED_LIMIT: usize = 500;

/// The window's state apart from drawing.
pub struct Dashboard {
    pub monitoring: bool,
    pub status_text: String,
    pub total_repos: usize,
    pub today_repos: usize,
    pub priority_repos: usize,
    pub spam_filtered: usize,
    pub search_query: String,
    pub priority_only: bool,
    pub hide_forks: bool,
    pub feed: Vec<RepoItem>,
    pub last_cycle: Option<String>,
    pub show_about: bool,
}

/// The feed after a batch: the batch newest first, then the old feed, cut to
/// the limit.
pub open spec fn feed_after_batch(feed: Seq<RepoView>, batch: Seq<RepoView>) -> Seq<RepoView> {
    let all = batch.reverse() + feed;
    if all.len() > FEED_LIMIT {
        all.take(FEED_LIMIT as int)
    } else {
        all
    }
}

/// The status line after a cycle.
pub open spec fn cycle_status(cycle: u64, new_count: usize, duration_ms: u128) -> Seq<char> {
    "Cycle #"@ + decimal(cycle as nat) + " completed · "@ + decimal(new_count as nat)
        + " new · "@ + decimal(duration_ms as nat) + " ms"@
}

/// The feed shows the repository: not hidden as a non-priority one while only
/// priority ones are shown, nor as a fork while forks are hidden.
pub open spec fn shown(priority_only: bool, hide_forks: bool, r: RepoView) -> bool {
    !(priority_only && !r.is_priority) && !(hide_forks && r.fork)
}

impl Dashboard {
    /// The window's state at start, with the statistics and feed read from
    /// the database.
    pub fn new(total: usize, today: usize, priority: usize, feed: Vec<RepoItem>) -> (d: Self)
        ensures
            d.monitoring,
            d.status_text@ == "Engine ready — monitoring active"@,
            d.total_repos == total,
            d.today_repos == today,
            d.priority_repos == priority,
            d.spam_filtered == 0,
            d.search_query@.len() == 0,
            !d.priority_only,
            d.hide_forks,
            d.feed == feed,
            d.last_cycle is None,
            !d.show_about,
    {
        Dashboard {
            monitoring: true,
            status_text: owned("Engine ready — monitoring active"),
            total_repos: total,
            today_repos: today,
            priority_repos: priority,
            spam_filtered: 0,
            search_query: String::new(),
            priority_only: false,
            hide_forks: true,
            feed,
            last_cycle: None,
            show_about: false,
        }
    }

    /// Takes in one report of the engine; `clock` is the local time of day.
    pub fn apply_event(&mut self, event: GuiEvent, clock: String)
        requires
            event matches GuiEvent::CycleFinished { spam_count, .. } ==> old(self).spam_filtered
                + spam_count <= usize::MAX,
        ensures
            match event {
                GuiEvent::NewBatch(items) => {
                    &&& item_views(final(self).feed@) == feed_after_batch(
                        item_views(old(self).feed@),
                        item_views(items@),
                    )
                    &&& final(self).status_text == old(self).status_text
                    &&& final(self).spam_filtered == old(self).spam_filtered
                    &&& final(self).total_repos == old(self).total_repos
                    &&& final(self).today_repos == old(self).today_repos
                    &&& final(self).priority_repos == old(self).priority_repos
                    &&& final(self).last_cycle == old(self).last_cycle
                },
                GuiEvent::CycleFinished {
                    cycle,
                    new_count,
                    priority_total,
                    spam_count,
                    duration_ms,
                    db_total,
                    today_total,
                } => {
                    &&& final(self).total_repos == db_total
                    &&& final(self).today_repos == today_total
                    &&& final(self).priority_repos == priority_total
                    &&& final(self).spam_filtered == old(self).spam_filtered + spam_count
                    &&& final(self).last_cycle == Some(clock)
                    &&& final(self).status_text@ == cycle_status(cycle, new_count, duration_ms)
                    &&& final(self).feed == old(self).feed
                },
                GuiEvent::Status(message) => {
                    &&& final(self).status_text == message
                    &&& final(self).feed == old(self).feed
                    &&& final(self).spam_filtered == old(self).spam_filtered
                    &&& final(self).total_repos == old(self).total_repos
                    &&& final(self).today_repos == old(self).today_repos
                    &&& final(self).priority_repos == old(self).priority_repos
                    &&& final(self).last_cycle == old(self).last_cycle
                },
            },
            final(self).monitoring == old(self).monitoring,
            final(self).search_query == old(self).search_query,
            final(self).show_about == old(self).show_about,
            final(self).priority_only == old(self).priority_only,
            final(self).hide_forks == old(self).hide_forks,
    {
        match event {
            GuiEvent::NewBatch(items) => {
                let ghost old_feed = item_views(self.feed@);
                let ghost batch = item_views(items@);
                let mut next: Vec<RepoItem> = Vec::new();
                let n = items.len();
                let mut i: usize = n;
                while i > 0 && next.len() < FEED_LIMIT
                    invariant
                        i <= n == items@.len(),
                        batch == item_views(items@),
                        next@.len() == n - i,
                        next@.len() <= FEED_LIMIT,
                        forall|k: int| 0 <= k < next@.len() ==> (#[trigger] next@[k])@ == batch.reverse()[k],
                    decreases i,
                {
                    next.push(items[i - 1].clone());
                    i = i - 1;
                }
                let m = self.feed.len();
                let mut j: usize = 0;
                while j < m && next.len() < FEED_LIMIT
                    invariant
                        j <= m == self.feed@.len(),
                        n == items@.len(),
                        i <= n,
                        old_feed == item_views(self.feed@),
                        batch == item_views(items@),
                        next@.len() <= FEED_LIMIT,
                        i == 0 || next@.len() == FEED_LIMIT,
                        j > 0 ==> i == 0,
                        next@.len() == (n - i) + j,
                        forall|k: int|
                            0 <= k < next@.len() ==> (#[trigger] next@[k])@ == (batch.reverse()
                                + old_feed)[k],
                    decreases m - j,
                {
                    assert(i == 0);
                    assert(batch.len() == n);
                    assert(batch.reverse().len() == n);
                    assert(old_feed[j as int] == self.feed@[j as int]@);
                    assert((batch.reverse() + old_feed)[n + j] == old_feed[j as int]);
                    next.push(self.feed[j].clone());
                    j = j + 1;
                }
                assert(item_views(next@) =~= feed_after_batch(old_feed, batch));
                self.feed = next;
            },
            GuiEvent::CycleFinished {
                cycle,
                new_count,
                priority_total,
                spam_count,
                duration_ms,
                db_total,
                today_total,
            } => {
                self.total_repos = db_total;
                self.today_repos = today_total;
                self.priority_repos = priority_total;
                self.spam_filtered = self.spam_filtered + spam_count;
                self.last_cycle = Some(clock);
                let mut s = owned("Cycle #");
                push_all(&mut s, format_u64(cycle).as_str());
                push_all(&mut s, " completed · ");
                push_all(&mut s, format_usize(new_count).as_str());
                push_all(&mut s, " new · ");
                push_all(&mut s, format_u128(duration_ms).as_str());
                push_all(&mut s, " ms");
                self.status_text = s;
            },
            GuiEvent::Status(message) => {
                self.status_text = message;
            },
        }
    }

    /// The pause button: monitoring flips and the engine is told whether to pause.
    pub fn toggle_monitoring(&mut self) -> (c: GuiCommand)
        ensures
            *final(self) == toggled(*old(self)),
            c == GuiCommand::SetPaused(!final(self).monitoring),
    {
        self.monitoring = !self.monitoring;
        GuiCommand::SetPaused(!self.monitoring)
    }

    /// Whether the feed shows the repository under the current switches.
    pub fn is_shown(&self, repo: &RepoItem) -> (b: bool)
        ensures
            b == shown(self.priority_only, self.hide_forks, repo@),
    {
        !(self.priority_only && !repo.is_priority) && !(self.hide_forks && repo.fork)
    }

    /// The positions in the feed of the repositories shown, in order.
    pub fn visible_positions(&self) -> (r: Vec<usize>)
        ensures
            forall|k: int| 0 <= k < r@.len() ==> (#[trigger] r@[k]) < self.feed@.len(),
            forall|k: int, l: int| 0 <= k < l < r@.len() ==> r@[k] < r@[l],
            forall|p: int|
                0 <= p < self.feed@.len() ==> (shown(self.priority_only, self.hide_forks, #[trigger] self.feed@[p]@)
                    <==> r@.contains(p as usize)),
    {
        let mut out: Vec<usize> = Vec::new();
        for i in 0..self.feed.len()
            invariant
                forall|k: int| 0 <= k < out@.len() ==> (#[trigger] out@[k]) < i,
                forall|k: int, l: int| 0 <= k < l < out@.len() ==> out@[k] < out@[l],
                forall|p: int|
                    0 <= p < i ==> (shown(self.priority_only, self.hide_forks, #[trigger] self.feed@[p]@)
                        <==> out@.contains(p as usize)),
        {
            let ghost before = out@;
            if self.is_shown(&self.feed[i]) {
                out.push(i);
            }
            assert forall|p: int|
                0 <= p < i + 1 implies (shown(self.priority_only, self.hide_forks, #[trigger] self.feed@[p]@)
                <==> out@.contains(p as usize)) by {
                if p < i {
                    if before.contains(p as usize) {
                        let w = choose|w: int| 0 <= w < before.len() && before[w] == p as usize;
                        assert(out@[w] == p as usize);
                    }
                    if out@.contains(p as usize) {
                        let w = choose|w: int| 0 <= w < out@.len() && out@[w] == p as usize;
                        if w < before.len() {
                            assert(before[w] == p as usize);
                        }
                    }
                } else {
                    if out@.contains(p as usize) {
                        let w = choose|w: int| 0 <= w < out@.len() && out@[w] == p as usize;
                        if w < before.len() {
                            assert(before[w] < i);
                        }
                    }
                    if shown(self.priority_only, self.hide_forks, self.feed@[p]@) {
                        assert(out@[out@.len() - 1] == i);
                    }
                }
            }
        }
        out
    }
}

/// The report that the background engine starts its `n`-th cycle.
pub fn scanning_status(n: u64) -> (e: GuiEvent)
    ensures
        e matches GuiEvent::Status(m) && m@ == "Scanning cycle #"@ + decimal(n as nat) + "…"@,
{
    let mut s = owned("Scanning cycle #");
    push_all(&mut s, format_u64(n).as_str());
    push_all(&mut s, "…");
    GuiEvent::Status(s)
}

/// The report of a failed cycle.
pub fn cycle_failed_status(message: &str) -> (e: GuiEvent)
    ensures
        e matches GuiEvent::Status(m) && m@ == "Cycle failed: "@ + message@,
{
    let mut s = owned("Cycle failed: ");
    push_all(&mut s, message);
    GuiEvent::Status(s)
}

/// The figures of a finished cycle, with the database's statistics (total,
/// today, priority) where they could be read, else the cycle's own total
/// and zeros.
pub open spec fn finished_event(result: CycleResult, stats: Option<(usize, usize, usize)>) -> GuiEvent {
    let (total, today, priority) = match stats {
        Some(t) => t,
        None => (result.db_total, 0usize, 0usize),
    };
    GuiEvent::CycleFinished {
        cycle: result.cycle,
        new_count: result.items@.len() as usize,
        priority_total: priority,
        spam_count: result.spam_count,
        duration_ms: result.duration_ms,
        db_total: total,
        today_total: today,
    }
}

/// What the window hears of a finished cycle: its new repositories when
/// there are any, then its figures (see `finished_event`).
pub fn cycle_report(result: CycleResult, stats: Option<(usize, usize, usize)>) -> (r: Vec<GuiEvent>)
    ensures
        r@ == if result.items@.len() > 0 {
            seq![GuiEvent::NewBatch(result.items), finished_event(result, stats)]
        } else {
            seq![finished_event(result, stats)]
        },
{
    let ghost whole = result;
    let (total, today, priority) = match stats {
        Some(t) => t,
        None => (result.db_total, 0, 0),
    };
    let finished = GuiEvent::CycleFinished {
        cycle: result.cycle,
        new_count: result.items.len(),
        priority_total: priority,
        spam_count: result.spam_count,
        duration_ms: result.duration_ms,
        db_total: total,
        today_total: today,
    };
    let mut out: Vec<GuiEvent> = Vec::new();
    if result.items.len() > 0 {
        out.push(GuiEvent::NewBatch(result.items));
    }
    out.push(finished);
    proof {
        assert(finished == finished_event(whole, stats));
    }
    out
}

/// Whether the background engine is paused after a command: a pause switch
/// sets it, a scan request leaves it as it was.
pub open spec fn paused_after(paused: bool, command: GuiCommand) -> bool {
    match command {
        GuiCommand::TriggerScan => paused,
        GuiCommand::SetPaused(value) => value,
    }
}

/// Takes in one command of the window (see `paused_after`).
pub fn apply_command(paused: bool, command: GuiCommand) -> (r: bool)
    ensures
        r == paused_after(paused, command),
{
    match command {
        GuiCommand::TriggerScan => paused,
        GuiCommand::SetPaused(value) => value,
    }
}

/// What the background engine does next.
#[derive(Debug, Clone, Copy, PartialEq, Eq, Structural)]
pub enum BackgroundStep {
    /// Paused: wait for the next command.
    WaitForCommand,
    RunCycle,
}

/// While paused the engine waits for a command; otherwise it runs a cycle.
pub fn next_step(paused: bool) -> (s: BackgroundStep)
    ensures
        s == if paused {
            BackgroundStep::WaitForCommand
        } else {
            BackgroundStep::RunCycle
        },
{
    if paused {
        BackgroundStep::WaitForCommand
    } else {
        BackgroundStep::RunCycle
    }
}

/// Whether the engine is paused after the commands in turn.
pub open spec fn paused_after_all(paused: bool, commands: Seq<GuiCommand>) -> bool
    decreases commands.len(),
{
    if commands.len() == 0 {
        paused
    } else {
        paused_after(paused_after_all(paused, commands.drop_last()), commands.last())
    }
}

/// No cycle starts while the last pause switch asked for a pause: after a
/// `SetPaused(true)` followed only by scan requests, the engine waits.
pub proof fn lemma_paused_waits(paused: bool, commands: Seq<GuiCommand>, k: int)
    requires
        0 <= k < commands.len(),
        commands[k] == GuiCommand::SetPaused(true),
        forall|l: int| k < l < commands.len() ==> #[trigger] commands[l] == GuiCommand::TriggerScan,
    ensures
        paused_after_all(paused, commands),
    decreases commands.len(),
{
    if k < commands.len() - 1 {
        let t = commands.drop_last();
        assert forall|l: int| k < l < t.len() implies #[trigger] t[l] == GuiCommand::TriggerScan by {
            assert(t[l] == commands[l]);
        }
        lemma_paused_waits(paused, t, k);
        assert(commands.last() == commands[commands.len() - 1]);
    }
}

/// The window after the pause button: monitoring flips, nothing else changes.
pub open spec fn toggled(d: Dashboard) -> Dashboard {
    Dashboard { monitoring: !d.monitoring, ..d }
}

/// Pressing the pause button twice leaves the window as it was, and the two
/// presses ask the engine for opposite things.
pub proof fn lemma_toggle_twice(d: Dashboard)
    ensures
        toggled(toggled(d)) == d,
        GuiCommand::SetPaused(!toggled(d).monitoring) != GuiCommand::SetPaused(
            !toggled(toggled(d)).monitoring,
        ),
{
}

/// After any batch the feed holds at most the limit, and the newest batch
/// item (its last one) comes first.
pub proof fn lemma_feed_after_batch(feed: Seq<RepoView>, batch: Seq<RepoView>)
    ensures
        feed_after_batch(feed, batch).len() <= FEED_LIMIT,
        batch.len() > 0 ==> feed_after_batch(feed, batch)[0] == batch.last(),
{
}

/// The feed after a batch holds the batch newest first, then the old feed in
/// its order, as much of both as the limit allows.
pub proof fn lemma_feed_order(feed: Seq<RepoView>, batch: Seq<RepoView>)
    ensures
        feed_after_batch(feed, batch).len() == if batch.len() + feed.len() > FEED_LIMIT {
            FEED_LIMIT as int
        } else {
            (batch.len() + feed.len()) as int
        },
        forall|k: int|
            0 <= k < batch.len() && k < FEED_LIMIT ==> #[trigger] feed_after_batch(feed, batch)[k]
                == batch[batch.len() - 1 - k],
        forall|k: int|
            0 <= k < feed.len() && batch.len() + k < FEED_LIMIT ==> feed_after_batch(feed, batch)[batch.len()
                + k] == #[trigger] feed[k],
{
}

} // verus!
