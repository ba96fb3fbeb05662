//! Decisions of the background loops that push state to the UI: the watcher,
//! which re-lists when a provider signals a change and reconnects with
//! exponential backoff when the signal streams end, and the sampler, which
//! periodically samples the resources of the active jobs.
use vstd::prelude::*;

use crate::error::Error;
use crate::model::{Job, JobState, Resources};

verus! {

/// Event carrying the full job list.
pub const JOBS_EVENT: &'static str = "jobs";

/// Event carrying the id -> resources map of the active jobs.
pub const METRICS_EVENT: &'static str = "metrics";

/// Pause after the first change signal of a burst before re-listing; the
/// signals that arrive during it join the burst (a `daemon-reload` sends
/// many), which the watcher answers with one re-listing (see [`next_watch`]).
pub const DEBOUNCE_MS: u64 = 200;

/// Period of resource sampling.
pub const SAMPLE_EVERY_MS: u64 = 2000;

/// Re-listing period when no provider can push changes.
pub const HEARTBEAT_MS: u64 = 5000;

/// Shortest wait before reconnecting the change streams.
pub const BACKOFF_MIN_MS: u64 = 500;

/// Longest wait before reconnecting the change streams.
pub const BACKOFF_MAX_MS: u64 = 30000;

/// How long to wait before reconnecting, with the backoff at `backoff` when
/// the streams ended: a connection that lived starts over from the shortest wait.
pub open spec fn reconnect_wait(backoff: u64, lived: bool) -> u64 {
    if lived {
        BACKOFF_MIN_MS
    } else {
        backoff
    }
}

/// The backoff after waiting `wait`: doubled, up to the longest wait.
pub open spec fn doubled_backoff(wait: u64) -> u64 {
    if 2 * wait < BACKOFF_MAX_MS {
        (2 * wait) as u64
    } else {
        BACKOFF_MAX_MS
    }
}

/// What the watcher learns from the providers' change streams.
#[derive(Debug, Clone, Copy, PartialEq, Eq, Structural)]
pub enum WatchEvent {
    /// No provider offers a change stream.
    NoStreams,
    /// A change signal arrived.
    Signal,
    /// The pause that began a burst is over (the signals that came during it
    /// have been reported as `Signal`s).
    PauseOver,
    /// The change streams ended (the connection probably dropped).
    StreamsEnded,
}

/// What the watcher does next.
#[derive(Debug, Clone, Copy, PartialEq, Eq, Structural)]
pub enum WatchAction {
    /// No provider can push: wait this many milliseconds, re-list, then look
    /// for change streams again.
    Heartbeat(u64),
    /// A burst began: pause this many milliseconds, then report `PauseOver`.
    Pause(u64),
    /// Nothing to do but keep listening.
    Listen,
    /// Re-list the jobs and send them.
    Relist,
    /// Wait this many milliseconds, then reconnect the change streams.
    Reconnect(u64),
}

/// The watcher's state.
#[derive(Debug, Clone, Copy, PartialEq, Eq, Structural)]
pub struct WatchState {
    /// Wait before the next reconnection, unless the connection lives.
    pub backoff_ms: u64,
    /// The current connection has delivered a signal.
    pub lived: bool,
    /// A burst is being collected: its pause has not ended yet.
    pub pausing: bool,
}

/// The watcher's next state and action after `event` in state `s`.
/// - No streams: the slow heartbeat; nothing else changes.
/// - A signal outside a burst begins one (pause); inside one it only joins it.
/// - The end of the pause answers the whole burst with one re-listing.
/// - The end of the streams waits the backoff (the shortest wait when the
///   connection lived) before reconnecting, and doubles it, up to the longest wait.
pub open spec fn next_watch(s: WatchState, event: WatchEvent) -> (WatchState, WatchAction) {
    match event {
        WatchEvent::NoStreams => (s, WatchAction::Heartbeat(HEARTBEAT_MS)),
        WatchEvent::Signal => if s.pausing {
            (WatchState { lived: true, ..s }, WatchAction::Listen)
        } else {
            (WatchState { lived: true, pausing: true, ..s }, WatchAction::Pause(DEBOUNCE_MS))
        },
        WatchEvent::PauseOver => if s.pausing {
            (WatchState { pausing: false, ..s }, WatchAction::Relist)
        } else {
            (s, WatchAction::Listen)
        },
        WatchEvent::StreamsEnded => {
            let wait = reconnect_wait(s.backoff_ms, s.lived);
            (
                WatchState { backoff_ms: doubled_backoff(wait), lived: false, pausing: false },
                WatchAction::Reconnect(wait),
            )
        },
    }
}

/// The states and actions of the watcher over a run of events.
pub open spec fn run_watch(s: WatchState, events: Seq<WatchEvent>) -> (WatchState, Seq<WatchAction>)
    decreases events.len(),
{
    if events.len() == 0 {
        (s, Seq::empty())
    } else {
        let (s1, a) = next_watch(s, events[0]);
        let (last, rest) = run_watch(s1, events.drop_first());
        (last, seq![a] + rest)
    }
}

/// How many re-listings `actions` hold.
pub open spec fn relists(actions: Seq<WatchAction>) -> nat
    decreases actions.len(),
{
    if actions.len() == 0 {
        0
    } else {
        (if actions[0] == WatchAction::Relist {
            1nat
        } else {
            0nat
        }) + relists(actions.drop_first())
    }
}

/// `n` change signals in a row.
pub open spec fn signals(n: nat) -> Seq<WatchEvent> {
    Seq::new(n, |i: int| WatchEvent::Signal)
}

impl WatchState {
    /// The backoff lies between the shortest and the longest wait.
    pub open spec fn wf(self) -> bool {
        BACKOFF_MIN_MS <= self.backoff_ms <= BACKOFF_MAX_MS
    }

    /// A fresh watcher: the shortest backoff, no connection yet, no burst.
    pub fn start() -> (s: Self)
        ensures
            s.backoff_ms == BACKOFF_MIN_MS,
            !s.lived,
            !s.pausing,
            s.wf(),
    {
        WatchState { backoff_ms: BACKOFF_MIN_MS, lived: false, pausing: false }
    }

    /// Decides what the watcher does on `event`, and its next state.
    pub fn step(self, event: WatchEvent) -> (r: (WatchState, WatchAction))
        requires
            self.wf(),
        ensures
            r == next_watch(self, event),
            r.0.wf(),
    {
        match event {
            WatchEvent::NoStreams => (self, WatchAction::Heartbeat(HEARTBEAT_MS)),
            WatchEvent::Signal => if self.pausing {
                (WatchState { lived: true, ..self }, WatchAction::Listen)
            } else {
                (WatchState { lived: true, pausing: true, ..self }, WatchAction::Pause(DEBOUNCE_MS))
            },
            WatchEvent::PauseOver => if self.pausing {
                (WatchState { pausing: false, ..self }, WatchAction::Relist)
            } else {
                (self, WatchAction::Listen)
            },
            WatchEvent::StreamsEnded => {
                let wait = if self.lived {
                    BACKOFF_MIN_MS
                } else {
                    self.backoff_ms
                };
                let backoff_ms = if 2 * wait < BACKOFF_MAX_MS {
                    2 * wait
                } else {
                    BACKOFF_MAX_MS
                };
                (
                    WatchState { backoff_ms, lived: false, pausing: false },
                    WatchAction::Reconnect(wait),
                )
            },
        }
    }
}

proof fn lemma_relists_concat(a: Seq<WatchAction>, b: Seq<WatchAction>)
    ensures
        relists(a + b) == relists(a) + relists(b),
    decreases a.len(),
{
    if a.len() == 0 {
        assert(a + b =~= b);
    } else {
        assert((a + b).drop_first() =~= a.drop_first() + b);
        lemma_relists_concat(a.drop_first(), b);
    }
}

/// During a burst, further signals only keep listening.
proof fn lemma_signals_during_burst(s: WatchState, n: nat, rest: Seq<WatchEvent>)
    requires
        s.pausing,
        s.lived,
    ensures
        run_watch(s, signals(n) + rest).0 == run_watch(s, rest).0,
        run_watch(s, signals(n) + rest).1 == Seq::new(n, |i: int| WatchAction::Listen) + run_watch(
            s,
            rest,
        ).1,
    decreases n,
{
    if n == 0 {
        assert(signals(0) + rest =~= rest);
        assert(Seq::new(0, |i: int| WatchAction::Listen) + run_watch(s, rest).1 =~= run_watch(
            s,
            rest,
        ).1);
    } else {
        let evs = signals(n) + rest;
        assert(evs[0] == WatchEvent::Signal);
        assert(evs.drop_first() =~= signals((n - 1) as nat) + rest);
        assert(next_watch(s, WatchEvent::Signal) == (s, WatchAction::Listen));
        lemma_signals_during_burst(s, (n - 1) as nat, rest);
        assert(seq![WatchAction::Listen] + (Seq::new((n - 1) as nat, |i: int| WatchAction::Listen)
            + run_watch(s, rest).1) =~= Seq::new(n, |i: int| WatchAction::Listen) + run_watch(
            s,
            rest,
        ).1);
    }
}

proof fn lemma_listens_relist_nothing(n: nat)
    ensures
        relists(Seq::new(n, |i: int| WatchAction::Listen)) == 0,
    decreases n,
{
    if n > 0 {
        assert(Seq::new(n, |i: int| WatchAction::Listen).drop_first() =~= Seq::new(
            (n - 1) as nat,
            |i: int| WatchAction::Listen,
        ));
        lemma_listens_relist_nothing((n - 1) as nat);
    }
}

/// A burst of any length (a first signal, `more` signals during its pause,
/// then the end of the pause) is answered by exactly one re-listing, made
/// after the pause; the watcher then waits for the next burst, and its
/// connection counts as having lived.
pub proof fn lemma_burst_relists_once(s: WatchState, more: nat)
    requires
        !s.pausing,
    ensures
        ({
            let burst = seq![WatchEvent::Signal] + signals(more) + seq![WatchEvent::PauseOver];
            let (last, actions) = run_watch(s, burst);
            &&& actions.len() == more + 2
            &&& actions[0] == WatchAction::Pause(DEBOUNCE_MS)
            &&& actions.last() == WatchAction::Relist
            &&& relists(actions) == 1
            &&& !last.pausing
            &&& last.lived
            &&& last.backoff_ms == s.backoff_ms
        }),
{
    let burst = seq![WatchEvent::Signal] + signals(more) + seq![WatchEvent::PauseOver];
    let p = WatchState { lived: true, pausing: true, ..s };
    let end = seq![WatchEvent::PauseOver];
    assert(burst[0] == WatchEvent::Signal);
    assert(burst.drop_first() =~= signals(more) + end);
    lemma_signals_during_burst(p, more, end);
    let q = WatchState { pausing: false, ..p };
    assert(end.drop_first() =~= Seq::<WatchEvent>::empty());
    assert(end[0] == WatchEvent::PauseOver);
    assert(next_watch(p, WatchEvent::PauseOver) == (q, WatchAction::Relist));
    assert(run_watch(q, Seq::<WatchEvent>::empty()) == (q, Seq::<WatchAction>::empty()));
    assert(run_watch(p, end) == (q, seq![WatchAction::Relist] + Seq::<WatchAction>::empty()));
    let listens = Seq::new(more, |i: int| WatchAction::Listen);
    let actions = seq![WatchAction::Pause(DEBOUNCE_MS)] + (listens + (seq![WatchAction::Relist]
        + Seq::<WatchAction>::empty()));
    assert(run_watch(s, burst).1 == actions);
    assert(actions =~= seq![WatchAction::Pause(DEBOUNCE_MS)] + listens + seq![WatchAction::Relist]);
    lemma_relists_concat(seq![WatchAction::Pause(DEBOUNCE_MS)] + listens, seq![WatchAction::Relist]);
    lemma_relists_concat(seq![WatchAction::Pause(DEBOUNCE_MS)], listens);
    lemma_listens_relist_nothing(more);
    assert(relists(seq![WatchAction::Pause(DEBOUNCE_MS)]) == 0) by {
        let one = seq![WatchAction::Pause(DEBOUNCE_MS)];
        assert(one.drop_first() =~= Seq::<WatchAction>::empty());
        assert(one[0] != WatchAction::Relist);
        assert(relists(Seq::<WatchAction>::empty()) == 0);
    }
    assert(relists(seq![WatchAction::Relist]) == 1) by {
        let one = seq![WatchAction::Relist];
        assert(one.drop_first() =~= Seq::<WatchAction>::empty());
        assert(one[0] == WatchAction::Relist);
        assert(relists(Seq::<WatchAction>::empty()) == 0);
    }
}

/// Drops in a row wait longer and longer, up to the longest wait, never less
/// than the shortest; a connection that lived starts over from the shortest.
pub proof fn lemma_backoff_grows_to_cap(s: WatchState)
    requires
        s.wf(),
    ensures
        ({
            let (next, action) = next_watch(s, WatchEvent::StreamsEnded);
            &&& next.wf()
            &&& action == WatchAction::Reconnect(reconnect_wait(s.backoff_ms, s.lived))
            &&& !s.lived ==> s.backoff_ms <= next.backoff_ms
            &&& !s.lived && s.backoff_ms < BACKOFF_MAX_MS ==> s.backoff_ms < next.backoff_ms
            &&& s.lived ==> action == WatchAction::Reconnect(BACKOFF_MIN_MS) && next.backoff_ms == 2
                * BACKOFF_MIN_MS
        }),
        forall|e: WatchEvent| #[trigger] next_watch(s, e).0.wf(),
{
}

/// Samples are taken only while the window is visible; when its visibility
/// cannot be read, it counts as visible.
pub fn should_sample(window_visible: Option<bool>) -> (b: bool)
    ensures
        b == match window_visible {
            Some(v) => v,
            None => true,
        },
{
    match window_visible {
        Some(v) => v,
        None => true,
    }
}

/// The global ids of the active jobs, in listing order.
pub open spec fn active_ids(jobs: Seq<Job>) -> Seq<Seq<char>>
    decreases jobs.len(),
{
    if jobs.len() == 0 {
        Seq::empty()
    } else if jobs.last().state == JobState::Active {
        active_ids(jobs.drop_last()).push(jobs.last().id@)
    } else {
        active_ids(jobs.drop_last())
    }
}

/// The jobs whose resources the sampler reads: the active ones.
pub fn active_job_ids(jobs: &Vec<Job>) -> (ids: Vec<String>)
    ensures
        ids@.map_values(|s: String| s@) == active_ids(jobs@),
{
    let mut ids: Vec<String> = Vec::new();
    let n = jobs.len();
    let mut i: usize = 0;
    while i < n
        invariant
            n == jobs@.len(),
            i <= n,
            ids@.map_values(|s: String| s@) == active_ids(jobs@.take(i as int)),
        decreases n - i,
    {
        assert(jobs@.take(i + 1).drop_last() =~= jobs@.take(i as int));
        assert(jobs@.take(i + 1).last() == jobs@[i as int]);
        if jobs[i].state == JobState::Active {
            let ghost before = ids@;
            ids.push(jobs[i].id.clone());
            assert(ids@.map_values(|s: String| s@) =~= before.map_values(|s: String| s@).push(
                jobs@[i as int].id@,
            ));
        }
        i = i + 1;
    }
    assert(jobs@.take(n as int) =~= jobs@);
    ids
}

/// The readings that succeeded, in order.
pub open spec fn successful_readings(readings: Seq<(String, Result<Resources, Error>)>) -> Seq<
    (String, Resources),
>
    decreases readings.len(),
{
    if readings.len() == 0 {
        Seq::empty()
    } else {
        (match readings[0].1 {
            Ok(r) => seq![(readings[0].0, r)],
            Err(_) => Seq::empty(),
        }) + successful_readings(readings.drop_first())
    }
}

/// A reading succeeded.
pub open spec fn reading_ok(x: (String, Result<Resources, Error>)) -> bool {
    x.1 is Ok
}

/// A successful reading as a snapshot entry: the job id and what was read.
pub open spec fn reading_entry(x: (String, Result<Resources, Error>)) -> (String, Resources) {
    (x.0, x.1->Ok_0)
}

/// The snapshot holds one entry for each successful reading, in order, and
/// nothing else: as many entries as there are successful readings, the
/// `i`-th being the id and resources of the `i`-th successful reading.
pub proof fn lemma_snapshot_keeps_every_success(readings: Seq<(String, Result<Resources, Error>)>)
    ensures
        successful_readings(readings) == readings.filter(
            |x: (String, Result<Resources, Error>)| reading_ok(x),
        ).map_values(|x: (String, Result<Resources, Error>)| reading_entry(x)),
    decreases readings.len(),
{
    let pred = |x: (String, Result<Resources, Error>)| reading_ok(x);
    let entry = |x: (String, Result<Resources, Error>)| reading_entry(x);
    if readings.len() == 0 {
        reveal(Seq::filter);
        assert(readings.filter(pred) =~= Seq::<(String, Result<Resources, Error>)>::empty());
        assert(readings.filter(pred).map_values(entry) =~= Seq::<(String, Resources)>::empty());
    } else {
        let head = seq![readings[0]];
        let tail = readings.drop_first();
        lemma_snapshot_keeps_every_success(tail);
        assert(readings =~= head + tail);
        Seq::filter_distributes_over_add(head, tail, pred);
        reveal(Seq::filter);
        assert(head.drop_last() =~= Seq::<(String, Result<Resources, Error>)>::empty());
        assert(Seq::<(String, Result<Resources, Error>)>::empty().filter(pred) =~= Seq::<
            (String, Result<Resources, Error>),
        >::empty());
        assert(head.last() == readings[0]);
        let hf = head.filter(pred);
        if readings[0].1 is Ok {
            assert(hf =~= seq![readings[0]]);
        } else {
            assert(hf =~= Seq::<(String, Result<Resources, Error>)>::empty());
        }
        assert((hf + tail.filter(pred)).map_values(entry) =~= hf.map_values(entry) + tail.filter(
            pred,
        ).map_values(entry));
        assert(successful_readings(readings) =~= hf.map_values(entry) + tail.filter(pred).map_values(
            entry,
        ));
    }
}

/// What one sampling round sends: the successful readings by job id, or
/// nothing at all when no reading succeeded.
pub fn metrics_snapshot(readings: Vec<(String, Result<Resources, Error>)>) -> (snapshot: Option<
    Vec<(String, Resources)>,
>)
    ensures
        match snapshot {
            Some(v) => v@ == successful_readings(readings@) && v@.len() > 0,
            None => successful_readings(readings@).len() == 0,
        },
{
    let ghost orig = readings@;
    let ghost mut done: int = 0;
    let mut rest = readings;
    let mut ok: Vec<(String, Resources)> = Vec::new();
    while rest.len() > 0
        invariant
            0 <= done <= orig.len(),
            rest@ == orig.skip(done),
            ok@ + successful_readings(rest@) == successful_readings(orig),
        decreases rest@.len(),
    {
        let ghost before = rest@;
        let (id, reading) = rest.remove(0);
        proof {
            assert(rest@ =~= before.drop_first());
            assert(orig.skip(done).drop_first() =~= orig.skip(done + 1));
            done = done + 1;
        }
        match reading {
            Ok(r) => {
                let ghost a = ok@;
                ok.push((id, r));
                assert(a + (seq![(id, r)] + successful_readings(rest@)) =~= ok@ + successful_readings(rest@));
            },
            Err(_) => {
                assert(ok@ + successful_readings(rest@) =~= ok@ + (Seq::<(String, Resources)>::empty() + successful_readings(rest@)));
            },
        }
    }
    assert(ok@ + successful_readings(rest@) =~= ok@);
    if ok.len() == 0 {
        None
    } else {
        Some(ok)
    }
}

} // verus!
