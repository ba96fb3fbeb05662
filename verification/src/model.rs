//! Normalised data model. Every provider hands back `Job`s of this shape,
//! whatever the mechanism behind it (systemd, Docker, cron, ...).
use vstd::prelude::*;

use crate::text::{
    after_first, before_first, lemma_first_split, lemma_lex_irreflexive, lemma_lex_total,
    lemma_lex_transitive, lex_lt, split_first, str_lt,
};

verus! {

/// The kind of a job: decides how it is shown and which actions make sense.
#[derive(Debug, Clone, Copy, PartialEq, Eq, Structural)]
pub enum JobKind {
    /// A long-running process (a daemon, a server).
    Service,
    /// Runs on a schedule (systemd timer, cron).
    Scheduled,
    /// A container (Docker).
    Container,
}

/// Run state, normalised across mechanisms.
#[derive(Debug, Clone, Copy, PartialEq, Eq, Structural)]
pub enum JobState {
    Active,
    Inactive,
    Failed,
    Activating,
    Deactivating,
    Unknown,
}

/// High-level health reading, derived from the state.
#[derive(Debug, Clone, Copy, PartialEq, Eq, Structural)]
pub enum Health {
    /// Nothing to worry about.
    Healthy,
    Degraded,
    Failed,
}

/// Health that a state reads as: only a failure alarms, a transition degrades,
/// and everything else (inactive included: timers and oneshots live inactive) is fine.
pub open spec fn health_of(state: JobState) -> Health {
    match state {
        JobState::Failed => Health::Failed,
        JobState::Activating | JobState::Deactivating => Health::Degraded,
        _ => Health::Healthy,
    }
}


/// Schedule of a `Scheduled` job, in seconds since the epoch (UTC).
#[derive(Debug, Clone, Copy, PartialEq, Eq, Structural)]
pub struct Schedule {
    pub next_run: Option<i64>,
    pub last_run: Option<i64>,
}

impl Default for Schedule {
    fn default() -> (s: Self)
        ensures
            s.next_run is None,
            s.last_run is None,
    {
        Schedule { next_run: None, last_run: None }
    }
}

/// CPU use over a sampling window: `busy` units of CPU time spent during
/// `window` units of wall time, by work spread over `cores` cores.
/// As a percentage it reads `100 * busy * cores / window` (it may pass 100%
/// when the work is spread across cores, as in `top`).
#[derive(Debug, Clone, Copy, PartialEq, Eq, Structural)]
pub struct CpuLoad {
    pub busy: u64,
    pub window: u64,
    pub cores: u64,
}

impl CpuLoad {
    /// A load can be read as a percentage: the window is not empty and at least one core counts.
    pub open spec fn wf(self) -> bool {
        self.window > 0 && self.cores >= 1
    }
}

/// Resource use of a job.
#[derive(Debug, Clone, PartialEq)]
pub struct Resources {
    /// CPU use over the last sampling window; `None` when unknown.
    pub cpu: Option<CpuLoad>,
    /// Resident memory in bytes; `None` when unknown.
    pub mem_bytes: Option<u64>,
    /// Process ids that belong to the job.
    pub pids: Vec<u32>,
}

impl Resources {
    /// Nothing known: no CPU reading, no memory reading, no process.
    pub open spec fn is_empty(&self) -> bool {
        self.cpu is None && self.mem_bytes is None && self.pids@.len() == 0
    }
}

impl Default for Resources {
    fn default() -> (r: Self)
        ensures
            r.is_empty(),
    {
        Resources { cpu: None, mem_bytes: None, pids: Vec::new() }
    }
}

/// A normalised background job.
#[derive(Debug, Clone, PartialEq)]
pub struct Job {
    /// Qualified global id: `"systemd-user:my-worker.service"`.
    pub id: String,
    /// Provider the job comes from: `"systemd-user"`, `"docker"`, ...
    pub provider: String,
    /// Id within the provider: `"my-worker.service"`.
    pub local_id: String,
    pub kind: JobKind,
    pub name: String,
    pub description: String,
    /// Command that runs, when the provider can tell.
    pub command: Option<String>,
    pub state: JobState,
    /// Starts at boot (autostart enabled)?
    pub enabled: bool,
    pub schedule: Option<Schedule>,
    pub resources: Resources,
    pub health: Health,
}

/// The global id of the job `local_id` of provider `provider`.
pub open spec fn qualified_id(provider: Seq<char>, local_id: Seq<char>) -> Seq<char> {
    provider + seq![':'] + local_id
}

impl Job {
    /// Builds the global id from the provider and the local id.
    pub fn global_id(provider: &str, local_id: &str) -> (id: String)
        ensures
            id@ == qualified_id(provider@, local_id@),
    {
        let mut id = String::from_str(provider);
        proof {
            reveal_strlit(":");
        }
        id.append(":");
        id.append(local_id);
        id
    }

    /// Splits a global id into `(provider, local_id)` at its first `:`; local
    /// ids may hold `:` themselves (container names do). `None` when the id
    /// holds no `:` at all.
    pub fn split_id(global_id: &str) -> (r: Option<(&str, &str)>)
        ensures
            match r {
                Some((provider, local_id)) => {
                    &&& global_id@ == qualified_id(provider@, local_id@)
                    &&& !provider@.contains(':')
                    &&& provider@ == before_first(global_id@, ':')
                    &&& local_id@ == after_first(global_id@, ':')
                },
                None => !global_id@.contains(':'),
            },
    {
        split_first(global_id, ':')
    }
}

/// Splitting a global id gives back what it was built from, whenever the
/// provider part holds no `:` (local ids may hold any character).
pub proof fn lemma_split_id_inverts_global_id(provider: Seq<char>, local_id: Seq<char>)
    requires
        !provider.contains(':'),
    ensures
        qualified_id(provider, local_id).contains(':'),
        before_first(qualified_id(provider, local_id), ':') == provider,
        after_first(qualified_id(provider, local_id), ':') == local_id,
{
    lemma_first_split(provider, ':', local_id);
    assert(qualified_id(provider, local_id)[provider.len() as int] == ':');
}

/// `job` goes into name-sorted `s` after every job whose name is not greater:
/// jobs of equal name keep the order they came in.
pub open spec fn insert_by_name(s: Seq<Job>, job: Job) -> Seq<Job>
    decreases s.len(),
{
    if s.len() > 0 && lex_lt(job.name@, s.last().name@) {
        insert_by_name(s.drop_last(), job).push(s.last())
    } else {
        s.push(job)
    }
}

/// `s` sorted by name, stably (jobs of equal name keep their relative order).
pub open spec fn sorted_by_name(s: Seq<Job>) -> Seq<Job>
    decreases s.len(),
{
    if s.len() == 0 {
        s
    } else {
        insert_by_name(sorted_by_name(s.drop_last()), s.last())
    }
}

/// Names never decrease along `s`.
pub open spec fn names_nondecreasing(s: Seq<Job>) -> bool {
    forall|i: int, j: int| 0 <= i < j < s.len() ==> !lex_lt(#[trigger] s[j].name@, #[trigger] s[i].name@)
}

/// Where `insert_by_name` puts `job`: after the jobs that are not greater, before the greater ones.
proof fn lemma_insert_by_name_at(s: Seq<Job>, job: Job, p: int)
    requires
        0 <= p <= s.len(),
        forall|k: int| p <= k < s.len() ==> lex_lt(job.name@, #[trigger] s[k].name@),
        p == 0 || !lex_lt(job.name@, s[p - 1].name@),
    ensures
        insert_by_name(s, job) == s.insert(p, job),
    decreases s.len(),
{
    if p == s.len() {
        assert(s.push(job) =~= s.insert(p, job));
    } else {
        assert(lex_lt(job.name@, s.last().name@));
        let d = s.drop_last();
        assert forall|k: int| p <= k < d.len() implies lex_lt(job.name@, #[trigger] d[k].name@) by {
            assert(d[k] == s[k]);
        }
        lemma_insert_by_name_at(d, job, p);
        assert(d.insert(p, job).push(s.last()) =~= s.insert(p, job));
    }
}

/// `insert_by_name` always inserts at some such position.
proof fn lemma_insert_by_name_position(s: Seq<Job>, job: Job) -> (p: int)
    ensures
        0 <= p <= s.len(),
        forall|k: int| p <= k < s.len() ==> lex_lt(job.name@, #[trigger] s[k].name@),
        p == 0 || !lex_lt(job.name@, s[p - 1].name@),
        insert_by_name(s, job) == s.insert(p, job),
    decreases s.len(),
{
    if s.len() > 0 && lex_lt(job.name@, s.last().name@) {
        let d = s.drop_last();
        let p = lemma_insert_by_name_position(d, job);
        assert forall|k: int| p <= k < s.len() implies lex_lt(job.name@, #[trigger] s[k].name@) by {
            if k < d.len() {
                assert(s[k] == d[k]);
            }
        }
        if p > 0 {
            assert(s[p - 1] == d[p - 1]);
        }
        lemma_insert_by_name_at(s, job, p);
        p
    } else {
        lemma_insert_by_name_at(s, job, s.len() as int);
        s.len() as int
    }
}

/// `a <= b <= c` in name order gives `a <= c`.
proof fn lemma_name_le_transitive(a: Seq<char>, b: Seq<char>, c: Seq<char>)
    requires
        !lex_lt(b, a),
        !lex_lt(c, b),
    ensures
        !lex_lt(c, a),
{
    if lex_lt(c, a) {
        if a != b {
            lemma_lex_total(a, b);
            if b != c {
                lemma_lex_total(b, c);
                lemma_lex_transitive(a, b, c);
                lemma_lex_transitive(c, a, c);
                lemma_lex_irreflexive(c);
            } else {
                lemma_lex_transitive(c, a, b);
                lemma_lex_irreflexive(c);
            }
        } else if b != c {
            lemma_lex_total(b, c);
            lemma_lex_transitive(c, a, c);
            lemma_lex_irreflexive(c);
        } else {
            lemma_lex_irreflexive(c);
        }
    }
}

proof fn lemma_insert_by_name_keeps_order(s: Seq<Job>, job: Job)
    requires
        names_nondecreasing(s),
    ensures
        names_nondecreasing(insert_by_name(s, job)),
        insert_by_name(s, job).to_multiset() == s.to_multiset().insert(job),
{
    let p = lemma_insert_by_name_position(s, job);
    let r = s.insert(p, job);
    assert forall|i: int, j: int| 0 <= i < j < r.len() implies !lex_lt(#[trigger] r[j].name@, #[trigger] r[i].name@) by {
        if j < p {
            assert(!lex_lt(s[j].name@, s[i].name@));
        } else if j == p {
            assert(!lex_lt(job.name@, s[p - 1].name@));
            if i < p - 1 {
                assert(!lex_lt(s[p - 1].name@, s[i].name@));
                lemma_name_le_transitive(s[i].name@, s[p - 1].name@, job.name@);
            }
        } else if i == p {
            assert(lex_lt(job.name@, s[j - 1].name@));
            if lex_lt(s[j - 1].name@, job.name@) {
                lemma_lex_transitive(job.name@, s[j - 1].name@, job.name@);
                lemma_lex_irreflexive(job.name@);
            }
        } else if i < p {
            assert(!lex_lt(s[j - 1].name@, s[i].name@));
        } else {
            assert(!lex_lt(s[j - 1].name@, s[i - 1].name@));
        }
    }
    vstd::seq_lib::to_multiset_insert(s, p, job);
}

/// Sorting by name gives a name-ordered listing of the same jobs.
pub proof fn lemma_sorted_by_name_is_sorted_permutation(s: Seq<Job>)
    ensures
        names_nondecreasing(sorted_by_name(s)),
        sorted_by_name(s).to_multiset() == s.to_multiset(),
    decreases s.len(),
{
    if s.len() == 0 {
    } else {
        lemma_sorted_by_name_is_sorted_permutation(s.drop_last());
        lemma_insert_by_name_keeps_order(sorted_by_name(s.drop_last()), s.last());
        vstd::seq_lib::to_multiset_build(s.drop_last(), s.last());
        assert(s.drop_last().push(s.last()) =~= s);
    }
}

/// The jobs named `name`.
pub open spec fn named(name: Seq<char>) -> spec_fn(Job) -> bool {
    |j: Job| j.name@ == name
}

proof fn lemma_filter_none(s: Seq<Job>, name: Seq<char>)
    requires
        forall|i: int| 0 <= i < s.len() ==> #[trigger] s[i].name@ != name,
    ensures
        s.filter(named(name)) == Seq::<Job>::empty(),
    decreases s.len(),
{
    reveal(Seq::filter);
    if s.len() > 0 {
        lemma_filter_none(s.drop_last(), name);
        assert(s.last().name@ != name);
    }
}

/// Sorting is stable: the jobs of each name come out in the order they came in.
pub proof fn lemma_sort_by_name_is_stable(s: Seq<Job>, name: Seq<char>)
    ensures
        sorted_by_name(s).filter(named(name)) == s.filter(named(name)),
    decreases s.len(),
{
    let pred = named(name);
    if s.len() == 0 {
    } else {
        let d = s.drop_last();
        let job = s.last();
        let t = sorted_by_name(d);
        lemma_sort_by_name_is_stable(d, name);
        let p = lemma_insert_by_name_position(t, job);
        let a = t.take(p);
        let b = t.skip(p);
        assert(t.insert(p, job) =~= a + seq![job] + b);
        assert(t =~= a + b);
        Seq::filter_distributes_over_add(a + seq![job], b, pred);
        Seq::filter_distributes_over_add(a, seq![job], pred);
        Seq::filter_distributes_over_add(a, b, pred);
        assert(s =~= d.push(job));
        d.lemma_filter_push(job, pred);
        Seq::<Job>::empty().lemma_filter_push(job, pred);
        reveal(Seq::filter);
        assert(Seq::<Job>::empty().push(job) =~= seq![job]);
        assert(Seq::<Job>::empty().filter(pred) =~= Seq::<Job>::empty());
        if job.name@ == name {
            assert forall|i: int| 0 <= i < b.len() implies #[trigger] b[i].name@ != name by {
                assert(b[i] == t[p + i]);
                assert(lex_lt(job.name@, t[p + i].name@));
                lemma_lex_irreflexive(name);
            }
            lemma_filter_none(b, name);
            assert(seq![job].filter(pred) =~= seq![job]);
            assert(a.filter(pred) + seq![job] + Seq::<Job>::empty() =~= (a.filter(pred)
                + Seq::<Job>::empty()).push(job));
        } else {
            assert(seq![job].filter(pred) =~= Seq::<Job>::empty());
            assert(a.filter(pred) + Seq::<Job>::empty() + b.filter(pred) =~= a.filter(pred)
                + b.filter(pred));
        }
    }
}

/// Sorts jobs by name, stably: jobs of equal name keep the order they came in.
pub fn sort_by_name(jobs: Vec<Job>) -> (sorted: Vec<Job>)
    ensures
        sorted@ == sorted_by_name(jobs@),
{
    let ghost orig = jobs@;
    let ghost mut done: int = 0;
    let mut rest = jobs;
    let mut sorted: Vec<Job> = Vec::new();
    while rest.len() > 0
        invariant
            0 <= done <= orig.len(),
            rest@ == orig.skip(done),
            sorted@ == sorted_by_name(orig.take(done)),
        decreases rest@.len(),
    {
        let job = rest.remove(0);
        let mut p = sorted.len();
        while p > 0 && str_lt(job.name.as_str(), sorted[p - 1].name.as_str())
            invariant
                p <= sorted@.len(),
                forall|k: int| p <= k < sorted@.len() ==> lex_lt(job.name@, #[trigger] sorted@[k].name@),
            decreases p,
        {
            p = p - 1;
        }
        proof {
            lemma_insert_by_name_at(sorted@, job, p as int);
            assert(job == orig[done]);
            assert(orig.take(done + 1).drop_last() =~= orig.take(done));
            assert(orig.take(done + 1).last() == orig[done]);
            assert(orig.skip(done).drop_first() =~= orig.skip(done + 1));
            done = done + 1;
        }
        sorted.insert(p, job);
    }
    proof {
        assert(orig.take(done) =~= orig);
    }
    sorted
}

/// On-demand detail of a job, fetched when its detail panel opens.
#[derive(Debug, Clone, PartialEq)]
pub struct JobDetail {
    /// Command that runs (ExecStart), where it applies.
    pub command: Option<String>,
    /// Path of the unit file (FragmentPath).
    pub fragment_path: Option<String>,
    /// Exit code of the main process (ExecMainStatus), when there was one.
    pub exit_code: Option<i32>,
    /// Why it last ended (Result): "success", "exit-code", "signal", ...
    pub exit_reason: Option<String>,
    /// Since when it is in its current state (ActiveEnterTimestamp, epoch seconds).
    pub since: Option<i64>,
}

impl Default for JobDetail {
    fn default() -> (d: Self)
        ensures
            d.command is None,
            d.fragment_path is None,
            d.exit_code is None,
            d.exit_reason is None,
            d.since is None,
    {
        JobDetail { command: None, fragment_path: None, exit_code: None, exit_reason: None, since: None }
    }
}

/// Lifecycle actions a provider can carry out on a job.
#[derive(Debug, Clone, Copy, PartialEq, Eq, Structural)]
pub enum Action {
    Start,
    Stop,
    Restart,
    /// Enables autostart at boot.
    Enable,
    /// Disables autostart at boot.
    Disable,
    /// Runs a `Scheduled` job now, leaving its schedule alone.
    TriggerNow,
}

} // verus!
