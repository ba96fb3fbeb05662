//! Rules of the `systemd --user` provider: which unit files are the user's,
//! how a unit reads as a job, what each action asks of the manager, and how
//! CPU use is derived from two samples of a unit's CPU counter.
use vstd::prelude::*;

use crate::model::{
    health_of, qualified_id, Action, CpuLoad, Health, Job, JobKind, JobState, Resources, Schedule,
};
use crate::text::{
    after_last, ends_with, is_prefix, is_suffix, last_segment, lemma_lex_irreflexive,
    lemma_lex_total, lemma_lex_transitive, lex_lt, starts_with, str_eq, str_lt, strip_suffix,
};

verus! {

/// Stable id of this provider; the prefix of its jobs' global ids.
pub const PROVIDER_ID: &'static str = "systemd-user";

/// Job mode that every start, stop and restart is queued with.
pub const JOB_MODE: &'static str = "replace";

/// The job state that a systemd `ActiveState` reads as.
pub open spec fn unit_state(active_state: Seq<char>) -> JobState {
    if active_state == "active"@ {
        JobState::Active
    } else if active_state == "inactive"@ {
        JobState::Inactive
    } else if active_state == "failed"@ {
        JobState::Failed
    } else if active_state == "activating"@ {
        JobState::Activating
    } else if active_state == "deactivating"@ {
        JobState::Deactivating
    } else {
        JobState::Unknown
    }
}

/// Maps systemd's `ActiveState` to a [`JobState`].
pub fn map_state(active_state: &str) -> (s: JobState)
    ensures
        s == unit_state(active_state@),
{
    if str_eq(active_state, "active") {
        JobState::Active
    } else if str_eq(active_state, "inactive") {
        JobState::Inactive
    } else if str_eq(active_state, "failed") {
        JobState::Failed
    } else if str_eq(active_state, "activating") {
        JobState::Activating
    } else if str_eq(active_state, "deactivating") {
        JobState::Deactivating
    } else {
        JobState::Unknown
    }
}

/// Health a unit state reads as. Calm on purpose: inactive is no alarm,
/// since timers and oneshots live inactive.
pub fn map_health(state: JobState) -> (h: Health)
    ensures
        h == health_of(state),
{
    match state {
        JobState::Failed => Health::Failed,
        JobState::Activating | JobState::Deactivating => Health::Degraded,
        _ => Health::Healthy,
    }
}

/// A timer timestamp in microseconds as whole seconds; systemd writes 0 and
/// `u64::MAX` for "never" / "not available".
pub open spec fn usec_secs(usec: u64) -> Option<i64> {
    if usec != 0 && usec != u64::MAX {
        Some((usec / 1_000_000) as i64)
    } else {
        None
    }
}

/// 0 and `u64::MAX` mean "not set"; any other timestamp is read as the whole
/// seconds it falls in.
pub proof fn lemma_usec_secs_whole_seconds(usec: u64)
    ensures
        (usec == 0 || usec == u64::MAX) <==> usec_secs(usec) is None,
        usec_secs(usec) matches Some(secs) ==> secs >= 0 && secs * 1_000_000 <= usec < (secs + 1)
            * 1_000_000,
{
}

/// Microseconds since the epoch to seconds, `None` for the "not set" values.
pub fn usec_to_secs(usec: u64) -> (r: Option<i64>)
    ensures
        r == usec_secs(usec),
{
    if usec != 0 && usec != u64::MAX {
        Some((usec / 1_000_000) as i64)
    } else {
        None
    }
}

/// A timestamp property as seconds, when it could be read and is set.
pub open spec fn property_secs(usec: Option<u64>) -> Option<i64> {
    match usec {
        Some(u) => usec_secs(u),
        None => None,
    }
}

/// The schedule of a timer from its `NextElapseUSecRealtime` and
/// `LastTriggerUSec` properties (each `None` when it could not be read).
pub fn schedule_from_timer(next_elapse_usec: Option<u64>, last_trigger_usec: Option<u64>) -> (s:
    Schedule)
    ensures
        s.next_run == property_secs(next_elapse_usec),
        s.last_run == property_secs(last_trigger_usec),
{
    let next_run = match next_elapse_usec {
        Some(u) => usec_to_secs(u),
        None => None,
    };
    let last_run = match last_trigger_usec {
        Some(u) => usec_to_secs(u),
        None => None,
    };
    Schedule { next_run, last_run }
}

/// Timers are scheduled jobs; every other unit is a service.
pub open spec fn unit_kind_of(name: Seq<char>) -> JobKind {
    if is_suffix(".timer"@, name) {
        JobKind::Scheduled
    } else {
        JobKind::Service
    }
}

/// The kind of job a unit is, by its name.
pub fn unit_kind(name: &str) -> (k: JobKind)
    ensures
        k == unit_kind_of(name@),
{
    if ends_with(name, ".timer") {
        JobKind::Scheduled
    } else {
        JobKind::Service
    }
}

/// The unit that "run now" starts: the service of a timer, or the unit itself.
pub open spec fn trigger_unit(local_id: Seq<char>) -> Seq<char> {
    if is_suffix(".timer"@, local_id) {
        local_id.take(local_id.len() - ".timer"@.len()) + ".service"@
    } else {
        local_id
    }
}

/// Which unit to start when a job is triggered now: `x.timer` fires `x.service`.
pub fn trigger_target(local_id: &str) -> (t: String)
    ensures
        t@ == trigger_unit(local_id@),
{
    match strip_suffix(local_id, ".timer") {
        Some(stem) => String::from_str(stem).concat(".service"),
        None => String::from_str(local_id),
    }
}

/// A call on the systemd manager.
#[derive(Debug, Clone, PartialEq)]
pub enum UnitCall {
    /// `StartUnit(unit, JOB_MODE)`.
    Start(String),
    /// `StopUnit(unit, JOB_MODE)`.
    Stop(String),
    /// `RestartUnit(unit, JOB_MODE)`.
    Restart(String),
    /// `EnableUnitFiles([unit], runtime = false, force = false)`.
    Enable(String),
    /// `DisableUnitFiles([unit], runtime = false)`.
    Disable(String),
}

/// The manager call that carries out `action` on the unit `local_id`.
pub open spec fn unit_call_for(local_id: Seq<char>, action: Action, call: UnitCall) -> bool {
    match action {
        Action::Start => call matches UnitCall::Start(u) && u@ == local_id,
        Action::Stop => call matches UnitCall::Stop(u) && u@ == local_id,
        Action::Restart => call matches UnitCall::Restart(u) && u@ == local_id,
        Action::Enable => call matches UnitCall::Enable(u) && u@ == local_id,
        Action::Disable => call matches UnitCall::Disable(u) && u@ == local_id,
        Action::TriggerNow => call matches UnitCall::Start(u) && u@ == trigger_unit(local_id),
    }
}

/// The unit a manager call acts on.
pub open spec fn called_unit(call: UnitCall) -> Seq<char> {
    match call {
        UnitCall::Start(u) => u@,
        UnitCall::Stop(u) => u@,
        UnitCall::Restart(u) => u@,
        UnitCall::Enable(u) => u@,
        UnitCall::Disable(u) => u@,
    }
}

/// Every action but "run now" acts on the unit it is given, whatever it is
/// (a timer is stopped, restarted, enabled or disabled itself); "run now"
/// starts `x.service` for a timer `x.timer`, and the unit itself otherwise.
/// Stopping never starts, starting never stops, and so on: only start and
/// "run now" start.
pub proof fn lemma_actions_act_on_the_unit(local_id: Seq<char>, action: Action, call: UnitCall)
    requires
        unit_call_for(local_id, action, call),
    ensures
        action != Action::TriggerNow ==> called_unit(call) == local_id,
        action == Action::TriggerNow && is_suffix(".timer"@, local_id) ==> called_unit(call)
            == local_id.take(local_id.len() - ".timer"@.len()) + ".service"@,
        action == Action::TriggerNow && !is_suffix(".timer"@, local_id) ==> called_unit(call)
            == local_id,
        (call is Start) <==> (action == Action::Start || action == Action::TriggerNow),
        (call is Stop) <==> (action == Action::Stop),
        (call is Restart) <==> (action == Action::Restart),
        (call is Enable) <==> (action == Action::Enable),
        (call is Disable) <==> (action == Action::Disable),
{
}

/// Plans an action on a unit as one manager call.
pub fn plan_control(local_id: &str, action: Action) -> (call: UnitCall)
    ensures
        unit_call_for(local_id@, action, call),
{
    match action {
        Action::Start => UnitCall::Start(String::from_str(local_id)),
        Action::Stop => UnitCall::Stop(String::from_str(local_id)),
        Action::Restart => UnitCall::Restart(String::from_str(local_id)),
        Action::Enable => UnitCall::Enable(String::from_str(local_id)),
        Action::Disable => UnitCall::Disable(String::from_str(local_id)),
        Action::TriggerNow => UnitCall::Start(trigger_target(local_id)),
    }
}


/// A unit file of the user: its name and its file state (`"enabled"`, `"static"`, ...).
#[derive(Debug, Clone, PartialEq)]
pub struct UserUnit {
    pub name: String,
    pub file_state: String,
}

/// Units the listing shows: services and timers.
pub open spec fn wanted_unit_name(name: Seq<char>) -> bool {
    is_suffix(".service"@, name) || is_suffix(".timer"@, name)
}

/// The home directory as a path prefix: with exactly the one trailing `/` it
/// has, or gets.
pub open spec fn home_dir(home: Seq<char>) -> Seq<char> {
    if home.len() > 0 && home.last() == '/' {
        home
    } else {
        home.push('/')
    }
}

/// A unit file is the user's own when it lives inside the (known) home
/// directory: `~/.config/systemd/user`, `~/.local/share/systemd/user`.
/// System plumbing (`/usr/lib`, `/etc`, `/run`), transient desktop apps and
/// the files of other homes that merely share a name prefix (`/home/u2`,
/// `/home/u-backup` for `/home/u`) are left out.
pub open spec fn in_home(home: Seq<char>, path: Seq<char>) -> bool {
    home.len() > 0 && is_prefix(home_dir(home), path)
}

/// Whether `path` lies inside the directory `home` (never when `home` is empty).
pub fn inside_home(home: &str, path: &str) -> (b: bool)
    ensures
        b == in_home(home@, path@),
{
    let lh = home.unicode_len();
    if lh == 0 {
        return false;
    }
    if !starts_with(path, home) {
        proof {
            if is_prefix(home_dir(home@), path@) {
                assert(path@.take(lh as int) =~= home_dir(home@).take(lh as int));
                assert(home_dir(home@).take(lh as int) =~= home@);
            }
        }
        return false;
    }
    if home.get_char(lh - 1) == '/' {
        return true;
    }
    let lp = path.unicode_len();
    if lp > lh && path.get_char(lh) == '/' {
        proof {
            assert(path@.take(lh + 1) =~= path@.take(lh as int).push('/'));
            assert(home_dir(home@) =~= home@.push('/'));
        }
        true
    } else {
        proof {
            if is_prefix(home_dir(home@), path@) {
                assert(home_dir(home@)[lh as int] == '/');
                assert(path@.take(lh + 1)[lh as int] == '/');
            }
        }
        false
    }
}

/// The user's units among `files` (pairs of unit file path and file state),
/// by name; a later file of the same name replaces an earlier one.
pub open spec fn user_unit_map(home: Seq<char>, files: Seq<(String, String)>) -> Map<
    Seq<char>,
    Seq<char>,
>
    decreases files.len(),
{
    if files.len() == 0 {
        Map::empty()
    } else {
        let rest = user_unit_map(home, files.drop_last());
        let path = files.last().0@;
        let name = after_last(path, '/');
        if in_home(home, path) && wanted_unit_name(name) {
            rest.insert(name, files.last().1@)
        } else {
            rest
        }
    }
}

/// Names strictly ascending (so also free of repeats).
pub open spec fn names_ascending(units: Seq<UserUnit>) -> bool {
    forall|i: int, j: int|
        0 <= i < j < units.len() ==> lex_lt(#[trigger] units[i].name@, #[trigger] units[j].name@)
}

/// `units` lists exactly the entries of `m`.
pub open spec fn lists_map(units: Seq<UserUnit>, m: Map<Seq<char>, Seq<char>>) -> bool {
    &&& forall|i: int|
        0 <= i < units.len() ==> #[trigger] m.contains_key(units[i].name@) && m[units[i].name@]
            == units[i].file_state@
    &&& forall|k: Seq<char>|
        #[trigger] m.contains_key(k) ==> exists|i: int| 0 <= i < units.len() && units[i].name@ == k
}

/// Placing `u` at index `j` of name-sorted `old`, over `d` entries (`d == 1`:
/// over the entry of the same name; `d == 0`: between its neighbours), keeps
/// the names ascending and lists `u` in place of any earlier entry of its name.
proof fn lemma_place_unit(
    old: Seq<UserUnit>,
    new: Seq<UserUnit>,
    m: Map<Seq<char>, Seq<char>>,
    u: UserUnit,
    j: int,
    d: int,
)
    requires
        names_ascending(old),
        lists_map(old, m),
        d == 0 || d == 1,
        0 <= j,
        j + d <= old.len(),
        new == old.take(j) + seq![u] + old.skip(j + d),
        forall|k: int| 0 <= k < j ==> lex_lt(#[trigger] old[k].name@, u.name@),
        j + d < old.len() ==> lex_lt(u.name@, old[j + d].name@),
        d == 1 ==> old[j].name@ == u.name@,
    ensures
        names_ascending(new),
        lists_map(new, m.insert(u.name@, u.file_state@)),
{
    let nm = u.name@;
    let m2 = m.insert(nm, u.file_state@);
    lemma_lex_irreflexive(nm);
    assert forall|i: int| 0 <= i < new.len() implies #[trigger] new[i] == if i < j {
        old[i]
    } else if i == j {
        u
    } else {
        old[i - 1 + d]
    } by {}
    // Every entry after `u` is greater than it.
    assert forall|k: int| j + d <= k < old.len() implies lex_lt(nm, #[trigger] old[k].name@) by {
        if k > j + d {
            assert(lex_lt(old[j + d].name@, old[k].name@));
            lemma_lex_transitive(nm, old[j + d].name@, old[k].name@);
        }
    }
    assert forall|i: int, k: int| 0 <= i < k < new.len() implies lex_lt(
        #[trigger] new[i].name@,
        #[trigger] new[k].name@,
    ) by {
        if k < j {
            assert(lex_lt(old[i].name@, old[k].name@));
        } else if k == j {
        } else if i == j {
            assert(lex_lt(nm, old[k - 1 + d].name@));
        } else if i < j {
            assert(lex_lt(nm, old[k - 1 + d].name@));
            lemma_lex_transitive(old[i].name@, nm, old[k - 1 + d].name@);
        } else {
            assert(lex_lt(old[i - 1 + d].name@, old[k - 1 + d].name@));
        }
    }
    assert forall|i: int| 0 <= i < new.len() implies #[trigger] m2.contains_key(new[i].name@)
        && m2[new[i].name@] == new[i].file_state@ by {
        if i < j {
            assert(m.contains_key(old[i].name@));
            assert(old[i].name@ != nm);
        } else if i > j {
            assert(lex_lt(nm, old[i - 1 + d].name@));
            assert(m.contains_key(old[i - 1 + d].name@));
        }
    }
    assert forall|k: Seq<char>| #[trigger] m2.contains_key(k) implies exists|i: int|
        0 <= i < new.len() && new[i].name@ == k by {
        if k == nm {
            assert(new[j].name@ == k);
        } else {
            let c = choose|i: int| 0 <= i < old.len() && old[i].name@ == k;
            if c < j {
                assert(new[c].name@ == k);
            } else {
                assert(c >= j + d);
                assert(new[c + 1 - d].name@ == k);
            }
        }
    }
}

/// Puts `(name, file_state)` into name-sorted `units`, replacing an entry of the same name.
fn insert_unit(units: &mut Vec<UserUnit>, name: String, file_state: String, Ghost(m): Ghost<
    Map<Seq<char>, Seq<char>>,
>)
    requires
        names_ascending(old(units)@),
        lists_map(old(units)@, m),
    ensures
        names_ascending(final(units)@),
        lists_map(final(units)@, m.insert(name@, file_state@)),
{
    let ghost old_units = units@;
    let len = units.len();
    let mut j: usize = 0;
    while j < len && str_lt(units[j].name.as_str(), name.as_str())
        invariant
            len == units@.len(),
            units@ == old_units,
            j <= len,
            forall|k: int| 0 <= k < j ==> lex_lt(#[trigger] units@[k].name@, name@),
        decreases len - j,
    {
        j = j + 1;
    }
    let unit = UserUnit { name, file_state };
    if j < len && units[j].name == unit.name {
        proof {
            if j + 1 < len {
                assert(lex_lt(old_units[j as int].name@, old_units[j + 1].name@));
            }
        }
        let ghost placed = unit;
        units.set(j, unit);
        proof {
            assert(units@ =~= old_units.take(j as int) + seq![placed] + old_units.skip(j + 1));
            lemma_place_unit(old_units, units@, m, placed, j as int, 1);
        }
    } else {
        proof {
            if j < len {
                lemma_lex_total(old_units[j as int].name@, unit.name@);
            }
        }
        let ghost placed = unit;
        units.insert(j, unit);
        proof {
            assert(units@ =~= old_units.take(j as int) + seq![placed] + old_units.skip(j as int));
            lemma_place_unit(old_units, units@, m, placed, j as int, 0);
        }
    }
}

/// A unit file counts: it lies inside the home directory (which is known) and
/// is a service or a timer.
pub open spec fn counts_as_user_unit(home: Seq<char>, path: Seq<char>) -> bool {
    &&& home.len() > 0
    &&& (is_prefix(home.push('/'), path) || (home.last() == '/' && is_prefix(home, path)))
    &&& (is_suffix(".service"@, after_last(path, '/')) || is_suffix(
        ".timer"@,
        after_last(path, '/'),
    ))
}

proof fn lemma_counts_as_user_unit(home: Seq<char>, path: Seq<char>)
    ensures
        counts_as_user_unit(home, path) == (in_home(home, path) && wanted_unit_name(
            after_last(path, '/'),
        )),
{
    let h = home.len() as int;
    if home.len() > 0 && is_prefix(home.push('/'), path) {
        assert(path.take(h + 1).take(h) =~= path.take(h));
        assert(home.push('/').take(h) =~= home);
    }
}

proof fn lemma_user_unit_map_last_file(home: Seq<char>, files: Seq<(String, String)>, i: int)
    requires
        0 <= i < files.len(),
        counts_as_user_unit(home, files[i].0@),
        forall|j: int|
            i < j < files.len() && counts_as_user_unit(home, #[trigger] files[j].0@) ==> after_last(
                files[j].0@,
                '/',
            ) != after_last(files[i].0@, '/'),
    ensures
        user_unit_map(home, files).contains_key(after_last(files[i].0@, '/')),
        user_unit_map(home, files)[after_last(files[i].0@, '/')] == files[i].1@,
    decreases files.len(),
{
    lemma_counts_as_user_unit(home, files[i].0@);
    lemma_counts_as_user_unit(home, files.last().0@);
    if i < files.len() - 1 {
        assert forall|j: int|
            i < j < files.drop_last().len() && counts_as_user_unit(
                home,
                #[trigger] files.drop_last()[j].0@,
            ) implies after_last(files.drop_last()[j].0@, '/') != after_last(
            files.drop_last()[i].0@,
            '/',
        ) by {
            assert(files.drop_last()[j] == files[j]);
        }
        lemma_user_unit_map_last_file(home, files.drop_last(), i);
        assert(files.drop_last()[i] == files[i]);
    }
}

proof fn lemma_user_unit_map_from_files(home: Seq<char>, files: Seq<(String, String)>, name: Seq<char>)
    requires
        user_unit_map(home, files).contains_key(name),
    ensures
        exists|i: int|
            0 <= i < files.len() && counts_as_user_unit(home, #[trigger] files[i].0@) && after_last(
                files[i].0@,
                '/',
            ) == name,
    decreases files.len(),
{
    let last = files.last().0@;
    lemma_counts_as_user_unit(home, last);
    if counts_as_user_unit(home, last) && after_last(last, '/') == name {
        assert(counts_as_user_unit(home, files[files.len() - 1].0@));
    } else {
        lemma_user_unit_map_from_files(home, files.drop_last(), name);
        let i = choose|i: int|
            0 <= i < files.drop_last().len() && counts_as_user_unit(
                home,
                #[trigger] files.drop_last()[i].0@,
            ) && after_last(files.drop_last()[i].0@, '/') == name;
        assert(files.drop_last()[i] == files[i]);
    }
}

/// The listed units are exactly the user's own: every listed unit is named
/// after a unit file inside the home directory that is a service or a timer,
/// and every such file has its unit listed, with the file state of the last
/// such file of that name.
pub proof fn lemma_user_units_are_the_users_files(
    home: Seq<char>,
    files: Seq<(String, String)>,
    units: Seq<UserUnit>,
)
    requires
        lists_map(units, user_unit_map(home, files)),
    ensures
        forall|k: int|
            #![trigger units[k]]
            0 <= k < units.len() ==> exists|i: int|
                0 <= i < files.len() && counts_as_user_unit(home, #[trigger] files[i].0@)
                    && after_last(files[i].0@, '/') == units[k].name@,
        forall|i: int|
            0 <= i < files.len() && counts_as_user_unit(home, #[trigger] files[i].0@) && (forall|
                j: int,
            |
                i < j < files.len() && counts_as_user_unit(home, #[trigger] files[j].0@)
                    ==> after_last(files[j].0@, '/') != after_last(files[i].0@, '/')) ==> exists|
                k: int,
            |
                0 <= k < units.len() && units[k].name@ == after_last(files[i].0@, '/')
                    && units[k].file_state@ == files[i].1@,
{
    let m = user_unit_map(home, files);
    assert forall|k: int| #![trigger units[k]] 0 <= k < units.len() implies exists|i: int|
        0 <= i < files.len() && counts_as_user_unit(home, #[trigger] files[i].0@) && after_last(
            files[i].0@,
            '/',
        ) == units[k].name@ by {
        assert(m.contains_key(units[k].name@));
        lemma_user_unit_map_from_files(home, files, units[k].name@);
    }
    assert forall|i: int|
        0 <= i < files.len() && counts_as_user_unit(home, #[trigger] files[i].0@) && (forall|j: int|
            i < j < files.len() && counts_as_user_unit(home, #[trigger] files[j].0@) ==> after_last(
                files[j].0@,
                '/',
            ) != after_last(files[i].0@, '/')) implies exists|k: int|
        0 <= k < units.len() && units[k].name@ == after_last(files[i].0@, '/')
            && units[k].file_state@ == files[i].1@ by {
        let name = after_last(files[i].0@, '/');
        lemma_user_unit_map_last_file(home, files, i);
        assert(m.contains_key(name));
        let k = choose|k: int| 0 <= k < units.len() && units[k].name@ == name;
        assert(m[units[k].name@] == units[k].file_state@);
    }
}

/// The user's own services and timers among the manager's unit files
/// (`ListUnitFiles`: path and file state), one per name, sorted by name.
/// `home` is the user's home directory; when it is unknown (empty) no unit qualifies.
pub fn user_units(home: &str, unit_files: &Vec<(String, String)>) -> (units: Vec<UserUnit>)
    ensures
        names_ascending(units@),
        lists_map(units@, user_unit_map(home@, unit_files@)),
{
    let mut units: Vec<UserUnit> = Vec::new();
    let n = unit_files.len();
    let mut i: usize = 0;
    while i < n
        invariant
            n == unit_files@.len(),
            i <= n,
            names_ascending(units@),
            lists_map(units@, user_unit_map(home@, unit_files@.take(i as int))),
        decreases n - i,
    {
        let ghost before = user_unit_map(home@, unit_files@.take(i as int));
        assert(unit_files@.take(i + 1).drop_last() =~= unit_files@.take(i as int));
        let path = unit_files[i].0.as_str();
        if inside_home(home, path) {
            let name = last_segment(path, '/');
            if ends_with(name, ".service") || ends_with(name, ".timer") {
                insert_unit(
                    &mut units,
                    String::from_str(name),
                    unit_files[i].1.clone(),
                    Ghost(before),
                );
            }
        }
        i = i + 1;
    }
    assert(unit_files@.take(n as int) =~= unit_files@);
    units
}


/// A unit the manager has loaded (`ListUnits`): name, description and `ActiveState`.
#[derive(Debug, Clone, PartialEq)]
pub struct LoadedUnit {
    pub name: String,
    pub description: String,
    pub active_state: String,
}

/// The loaded unit of that name; the last one listed when the name repeats.
pub open spec fn loaded_named(loaded: Seq<LoadedUnit>, name: Seq<char>) -> Option<LoadedUnit>
    decreases loaded.len(),
{
    if loaded.len() == 0 {
        None
    } else if loaded.last().name@ == name {
        Some(loaded.last())
    } else {
        loaded_named(loaded.drop_last(), name)
    }
}

/// The schedule read for the timer of that name; the last one listed when the name repeats.
pub open spec fn schedule_named(schedules: Seq<(String, Schedule)>, name: Seq<char>) -> Option<
    Schedule,
>
    decreases schedules.len(),
{
    if schedules.len() == 0 {
        None
    } else if schedules.last().0@ == name {
        Some(schedules.last().1)
    } else {
        schedule_named(schedules.drop_last(), name)
    }
}

proof fn lemma_loaded_named_prefix(loaded: Seq<LoadedUnit>, name: Seq<char>, j: int)
    requires
        0 <= j <= loaded.len(),
        forall|k: int| j <= k < loaded.len() ==> loaded[k].name@ != name,
    ensures
        loaded_named(loaded, name) == loaded_named(loaded.take(j), name),
    decreases loaded.len() - j,
{
    if j == loaded.len() {
        assert(loaded.take(j) =~= loaded);
    } else {
        assert(loaded.drop_last().take(j) =~= loaded.take(j));
        lemma_loaded_named_prefix(loaded.drop_last(), name, j);
    }
}

proof fn lemma_schedule_named_prefix(schedules: Seq<(String, Schedule)>, name: Seq<char>, j: int)
    requires
        0 <= j <= schedules.len(),
        forall|k: int| j <= k < schedules.len() ==> schedules[k].0@ != name,
    ensures
        schedule_named(schedules, name) == schedule_named(schedules.take(j), name),
    decreases schedules.len() - j,
{
    if j == schedules.len() {
        assert(schedules.take(j) =~= schedules);
    } else {
        assert(schedules.drop_last().take(j) =~= schedules.take(j));
        lemma_schedule_named_prefix(schedules.drop_last(), name, j);
    }
}

/// Index of the last loaded unit called `name`.
fn find_loaded(loaded: &Vec<LoadedUnit>, name: &str) -> (r: Option<usize>)
    ensures
        match r {
            Some(k) => k < loaded@.len() && loaded_named(loaded@, name@) == Some(loaded@[k as int]),
            None => loaded_named(loaded@, name@) is None,
        },
{
    let mut j = loaded.len();
    while j > 0
        invariant
            j <= loaded@.len(),
            forall|k: int| j <= k < loaded@.len() ==> loaded@[k].name@ != name@,
        decreases j,
    {
        if str_eq(loaded[j - 1].name.as_str(), name) {
            proof {
                lemma_loaded_named_prefix(loaded@, name@, j as int);
                assert(loaded@.take(j as int).drop_last() =~= loaded@.take(j - 1));
            }
            return Some(j - 1);
        }
        j = j - 1;
    }
    proof {
        lemma_loaded_named_prefix(loaded@, name@, 0);
    }
    None
}

/// The schedule read for the timer called `name`, if any.
fn find_schedule(schedules: &Vec<(String, Schedule)>, name: &str) -> (r: Option<Schedule>)
    ensures
        r == schedule_named(schedules@, name@),
{
    let mut j = schedules.len();
    while j > 0
        invariant
            j <= schedules@.len(),
            forall|k: int| j <= k < schedules@.len() ==> schedules@[k].0@ != name@,
        decreases j,
    {
        if str_eq(schedules[j - 1].0.as_str(), name) {
            proof {
                lemma_schedule_named_prefix(schedules@, name@, j as int);
                assert(schedules@.take(j as int).drop_last() =~= schedules@.take(j - 1));
            }
            return Some(schedules[j - 1].1);
        }
        j = j - 1;
    }
    proof {
        lemma_schedule_named_prefix(schedules@, name@, 0);
    }
    None
}

/// The job state of a unit: its real state when loaded, `Inactive` when it only exists on disk.
pub open spec fn unit_job_state(loaded: Seq<LoadedUnit>, name: Seq<char>) -> JobState {
    match loaded_named(loaded, name) {
        Some(u) => unit_state(u.active_state@),
        None => JobState::Inactive,
    }
}

/// Autostart is on when the unit file is enabled (persistently or for this boot).
pub open spec fn file_state_enabled(file_state: Seq<char>) -> bool {
    file_state == "enabled"@ || file_state == "enabled-runtime"@
}

/// `job` is how the user unit `unit` reads, given the loaded units and the timer schedules read.
pub open spec fn is_unit_job(
    job: Job,
    unit: UserUnit,
    loaded: Seq<LoadedUnit>,
    schedules: Seq<(String, Schedule)>,
) -> bool {
    let name = unit.name@;
    let kind = unit_kind_of(name);
    let state = unit_job_state(loaded, name);
    &&& job.id@ == qualified_id(PROVIDER_ID@, name)
    &&& job.provider@ == PROVIDER_ID@
    &&& job.local_id@ == name
    &&& job.kind == kind
    &&& job.name@ == name
    &&& job.description@ == match loaded_named(loaded, name) {
        Some(u) => u.description@,
        None => Seq::empty(),
    }
    &&& job.command is None
    &&& job.state == state
    &&& job.enabled == file_state_enabled(unit.file_state@)
    &&& job.schedule == if kind == JobKind::Scheduled {
        schedule_named(schedules, name)
    } else {
        None
    }
    &&& job.resources.is_empty()
    &&& job.health == health_of(state)
}

/// The job a user unit reads as. Resources stay empty here (they are sampled
/// on demand) and so does the command.
pub fn unit_job(unit: &UserUnit, loaded: &Vec<LoadedUnit>, schedules: &Vec<(String, Schedule)>) -> (job: Job)
    ensures
        is_unit_job(job, *unit, loaded@, schedules@),
{
    let name = unit.name.as_str();
    let kind = unit_kind(name);
    let (description, state) = match find_loaded(loaded, name) {
        Some(k) => (loaded[k].description.clone(), map_state(loaded[k].active_state.as_str())),
        None => (String::new(), JobState::Inactive),
    };
    let enabled = str_eq(unit.file_state.as_str(), "enabled") || str_eq(
        unit.file_state.as_str(),
        "enabled-runtime",
    );
    let schedule = if kind == JobKind::Scheduled {
        find_schedule(schedules, name)
    } else {
        None
    };
    Job {
        id: Job::global_id(PROVIDER_ID, name),
        provider: String::from_str(PROVIDER_ID),
        local_id: String::from_str(name),
        kind,
        name: String::from_str(name),
        description,
        command: None,
        state,
        enabled,
        schedule,
        resources: Resources::default(),
        health: map_health(state),
    }
}

/// Autostart comes from the unit file state alone: a job is enabled exactly
/// when its unit file is `enabled` or `enabled-runtime`, whatever the unit's
/// run state (a disabled unit started by hand reads as not enabled), and two
/// readings of the same unit with different loaded states agree on it.
pub proof fn lemma_enabled_is_the_file_state(
    unit: UserUnit,
    job: Job,
    loaded: Seq<LoadedUnit>,
    schedules: Seq<(String, Schedule)>,
    other: Job,
    other_loaded: Seq<LoadedUnit>,
    other_schedules: Seq<(String, Schedule)>,
)
    requires
        is_unit_job(job, unit, loaded, schedules),
        is_unit_job(other, unit, other_loaded, other_schedules),
    ensures
        job.enabled <==> (unit.file_state@ == "enabled"@ || unit.file_state@ == "enabled-runtime"@),
        job.enabled == other.enabled,
{
}

/// How a job reads its unit:
/// - its ids are `systemd-user:<name>` and `<name>`;
/// - run state and description come from the last loaded unit of its name,
///   and a unit that is not loaded reads as inactive, without description;
/// - timers are scheduled jobs, with the last schedule read for them (none
///   when none was read); every other unit is a service without schedule;
/// - health is failed exactly for a failed job, degraded exactly while it
///   activates or deactivates.
pub proof fn lemma_unit_job_reads_its_unit(
    job: Job,
    unit: UserUnit,
    loaded: Seq<LoadedUnit>,
    schedules: Seq<(String, Schedule)>,
)
    requires
        is_unit_job(job, unit, loaded, schedules),
    ensures
        job.id@ == "systemd-user"@ + seq![':'] + unit.name@,
        job.local_id@ == unit.name@,
        job.name@ == unit.name@,
        (forall|k: int| 0 <= k < loaded.len() ==> #[trigger] loaded[k].name@ != unit.name@) ==> (
        job.state == JobState::Inactive && job.description@.len() == 0),
        forall|k: int|
            0 <= k < loaded.len() && #[trigger] loaded[k].name@ == unit.name@ && (forall|j: int|
                k < j < loaded.len() ==> loaded[j].name@ != unit.name@) ==> job.description@
                == loaded[k].description@ && job.state == unit_state(loaded[k].active_state@),
        !is_suffix(".timer"@, unit.name@) ==> job.kind == JobKind::Service && job.schedule is None,
        is_suffix(".timer"@, unit.name@) ==> job.kind == JobKind::Scheduled,
        is_suffix(".timer"@, unit.name@) && (forall|k: int|
            0 <= k < schedules.len() ==> #[trigger] schedules[k].0@ != unit.name@) ==> job.schedule
            is None,
        forall|k: int|
            0 <= k < schedules.len() && is_suffix(".timer"@, unit.name@) && #[trigger] schedules[k].0@
                == unit.name@ && (forall|j: int|
                k < j < schedules.len() ==> schedules[j].0@ != unit.name@) ==> job.schedule == Some(
                schedules[k].1,
            ),
        (job.health == Health::Failed) <==> (job.state == JobState::Failed),
        (job.health == Health::Degraded) <==> (job.state == JobState::Activating || job.state
            == JobState::Deactivating),
{
    let name = unit.name@;
    if forall|k: int| 0 <= k < loaded.len() ==> #[trigger] loaded[k].name@ != name {
        lemma_loaded_named_prefix(loaded, name, 0);
    }
    assert forall|k: int|
        0 <= k < loaded.len() && #[trigger] loaded[k].name@ == name && (forall|j: int|
            k < j < loaded.len() ==> loaded[j].name@ != name) implies job.description@
        == loaded[k].description@ && job.state == unit_state(loaded[k].active_state@) by {
        lemma_loaded_named_prefix(loaded, name, k + 1);
        assert(loaded.take(k + 1).last() == loaded[k]);
    }
    if forall|k: int| 0 <= k < schedules.len() ==> #[trigger] schedules[k].0@ != name {
        lemma_schedule_named_prefix(schedules, name, 0);
    }
    assert forall|k: int|
        0 <= k < schedules.len() && is_suffix(".timer"@, name) && #[trigger] schedules[k].0@ == name
            && (forall|j: int| k < j < schedules.len() ==> schedules[j].0@ != name) implies job.schedule
        == Some(schedules[k].1) by {
        lemma_schedule_named_prefix(schedules, name, k + 1);
        assert(schedules.take(k + 1).last() == schedules[k]);
    }
}

/// Each known systemd `ActiveState` reads as its own job state, and every
/// other text as unknown.
pub proof fn lemma_unit_states(active_state: Seq<char>)
    ensures
        (unit_state(active_state) == JobState::Active) <==> active_state == "active"@,
        (unit_state(active_state) == JobState::Inactive) <==> active_state == "inactive"@,
        (unit_state(active_state) == JobState::Failed) <==> active_state == "failed"@,
        (unit_state(active_state) == JobState::Activating) <==> active_state == "activating"@,
        (unit_state(active_state) == JobState::Deactivating) <==> active_state == "deactivating"@,
        (unit_state(active_state) == JobState::Unknown) <==> (active_state != "active"@
            && active_state != "inactive"@ && active_state != "failed"@ && active_state
            != "activating"@ && active_state != "deactivating"@),
{
    reveal_strlit("active");
    reveal_strlit("inactive");
    reveal_strlit("failed");
    reveal_strlit("activating");
    reveal_strlit("deactivating");
    assert("active"@.len() != "inactive"@.len());
    assert("active"@[0] != "failed"@[0]);
    assert("inactive"@.len() != "failed"@.len());
    assert("activating"@[0] != "deactivating"@[0]);
    assert("activating"@.len() != "active"@.len());
    assert("activating"@.len() != "inactive"@.len());
    assert("activating"@.len() != "failed"@.len());
    assert("deactivating"@.len() != "active"@.len());
    assert("deactivating"@.len() != "inactive"@.len());
    assert("deactivating"@.len() != "failed"@.len());
}

/// The jobs of the user units, in the units' order. `loaded` is what the
/// manager has loaded; `schedules` holds the schedule read for each timer
/// whose timer properties could be read.
pub fn build_jobs(
    units: &Vec<UserUnit>,
    loaded: &Vec<LoadedUnit>,
    schedules: &Vec<(String, Schedule)>,
) -> (jobs: Vec<Job>)
    ensures
        jobs@.len() == units@.len(),
        forall|i: int|
            0 <= i < units@.len() ==> is_unit_job(#[trigger] jobs@[i], units@[i], loaded@, schedules@),
{
    let mut jobs: Vec<Job> = Vec::new();
    let n = units.len();
    let mut i: usize = 0;
    while i < n
        invariant
            n == units@.len(),
            i <= n,
            jobs@.len() == i,
            forall|k: int|
                0 <= k < i ==> is_unit_job(#[trigger] jobs@[k], units@[k], loaded@, schedules@),
        decreases n - i,
    {
        jobs.push(unit_job(&units[i], loaded, schedules));
        i = i + 1;
    }
    jobs
}

/// The listing is sorted by name, each name once: the jobs come in the order
/// of the user units, whose names ascend strictly.
pub proof fn lemma_listing_sorted_by_name(
    units: Seq<UserUnit>,
    jobs: Seq<Job>,
    loaded: Seq<LoadedUnit>,
    schedules: Seq<(String, Schedule)>,
)
    requires
        names_ascending(units),
        jobs.len() == units.len(),
        forall|i: int| 0 <= i < units.len() ==> is_unit_job(#[trigger] jobs[i], units[i], loaded, schedules),
    ensures
        forall|i: int, j: int| 0 <= i < j < jobs.len() ==> lex_lt(#[trigger] jobs[i].name@, #[trigger] jobs[j].name@),
{
    assert forall|i: int, j: int| 0 <= i < j < jobs.len() implies lex_lt(#[trigger] jobs[i].name@, #[trigger] jobs[j].name@) by {
        assert(is_unit_job(jobs[i], units[i], loaded, schedules));
        assert(is_unit_job(jobs[j], units[j], loaded, schedules));
        assert(lex_lt(units[i].name@, units[j].name@));
    }
}


/// One reading of a unit's CPU counter: accumulated CPU time (`CPUUsageNSec`)
/// and the monotonic instant it was read at, both in nanoseconds.
#[derive(Debug, Clone, Copy, PartialEq, Eq, Structural)]
pub struct CpuSample {
    pub cpu_nsec: u64,
    pub at_nsec: u64,
}

/// CPU use between an earlier sample and a new reading: the CPU time spent
/// over the wall time that passed. Nothing when no time passed or the counter
/// went backwards (the unit restarted).
pub open spec fn load_since(prev: CpuSample, cpu_nsec: u64, at_nsec: u64) -> Option<CpuLoad> {
    let elapsed: int = if at_nsec >= prev.at_nsec {
        at_nsec - prev.at_nsec
    } else {
        0
    };
    if elapsed == 0 || cpu_nsec < prev.cpu_nsec {
        None
    } else {
        Some(CpuLoad { busy: (cpu_nsec - prev.cpu_nsec) as u64, window: elapsed as u64, cores: 1 })
    }
}

/// Each unit has at most one sample in `entries`.
pub open spec fn entries_unique(entries: Seq<(String, CpuSample)>) -> bool {
    forall|i: int, j: int|
        0 <= i < j < entries.len() ==> #[trigger] entries[i].0@ != #[trigger] entries[j].0@
}

/// The samples of `entries` by unit.
pub open spec fn entries_map(entries: Seq<(String, CpuSample)>) -> Map<Seq<char>, CpuSample> {
    Map::new(
        |k: Seq<char>| exists|i: int| 0 <= i < entries.len() && entries[i].0@ == k,
        |k: Seq<char>| entries[choose|i: int| 0 <= i < entries.len() && entries[i].0@ == k].1,
    )
}

/// In unique entries, index `k` holds `unit`'s sample, or (at the end) no
/// entry holds `unit`.
proof fn lemma_entries_lookup(entries: Seq<(String, CpuSample)>, k: int, unit: Seq<char>)
    requires
        entries_unique(entries),
        0 <= k <= entries.len(),
        forall|i: int| 0 <= i < k ==> entries[i].0@ != unit,
        k < entries.len() ==> entries[k].0@ == unit,
    ensures
        k < entries.len() ==> entries_map(entries).contains_key(unit) && entries_map(entries)[unit]
            == entries[k].1,
        k == entries.len() ==> !entries_map(entries).contains_key(unit),
{
    if k < entries.len() {
        assert(entries_map(entries).contains_key(unit));
        let c = choose|i: int| 0 <= i < entries.len() && entries[i].0@ == unit;
        if c != k {
            if c < k {
                assert(entries[c].0@ != unit);
            } else {
                assert(entries[k].0@ != entries[c].0@);
            }
        }
    } else if entries_map(entries).contains_key(unit) {
        let c = choose|i: int| 0 <= i < entries.len() && entries[i].0@ == unit;
        assert(entries[c].0@ != unit);
    }
}

/// Writing `unit`'s sample at index `k` of unique entries (over its entry, or
/// appended when `unit` has none) keeps them unique and records that sample.
proof fn lemma_entries_write(
    old: Seq<(String, CpuSample)>,
    new: Seq<(String, CpuSample)>,
    k: int,
    unit: Seq<char>,
    sample: CpuSample,
)
    requires
        entries_unique(old),
        0 <= k <= old.len(),
        forall|i: int| 0 <= i < k ==> old[i].0@ != unit,
        k < old.len() ==> old[k].0@ == unit,
        new.len() == if k < old.len() {
            old.len()
        } else {
            old.len() + 1
        },
        new[k].0@ == unit,
        new[k].1 == sample,
        forall|i: int| 0 <= i < new.len() && i != k ==> new[i] == old[i],
    ensures
        entries_unique(new),
        entries_map(new) == entries_map(old).insert(unit, sample),
{
    let om = entries_map(old);
    let nm = entries_map(new);
    assert forall|i: int| 0 <= i < old.len() && i != k implies old[i].0@ != unit by {
        if i > k {
            assert(old[k].0@ != old[i].0@);
        }
    }
    assert forall|i: int, j: int| 0 <= i < j < new.len() implies #[trigger] new[i].0@
        != #[trigger] new[j].0@ by {
        if i != k && j != k {
            assert(old[i].0@ != old[j].0@);
        }
    }
    assert forall|key: Seq<char>| #[trigger] nm.contains_key(key) == om.insert(unit, sample).contains_key(key) by {
        if key != unit && om.contains_key(key) {
            let c = choose|i: int| 0 <= i < old.len() && old[i].0@ == key;
            assert(new[c].0@ == key);
        }
        if key == unit {
            assert(new[k].0@ == key);
        }
        if nm.contains_key(key) && key != unit {
            let c = choose|i: int| 0 <= i < new.len() && new[i].0@ == key;
            assert(old[c].0@ == key);
        }
    }
    assert forall|key: Seq<char>| #[trigger] nm.contains_key(key) implies nm[key] == om.insert(
        unit,
        sample,
    )[key] by {
        let c = choose|i: int| 0 <= i < new.len() && new[i].0@ == key;
        if key == unit {
            assert(c == k);
        } else {
            let c0 = choose|i: int| 0 <= i < old.len() && old[i].0@ == key;
            assert(old[c].0@ == key);
            assert(c == c0);
        }
    }
    assert(nm =~= om.insert(unit, sample));
}

/// The last CPU sample of each unit, from which the next reading derives CPU use.
pub struct CpuTracker {
    entries: Vec<(String, CpuSample)>,
}

impl View for CpuTracker {
    type V = Map<Seq<char>, CpuSample>;

    closed spec fn view(&self) -> Map<Seq<char>, CpuSample> {
        entries_map(self.entries@)
    }
}

impl CpuTracker {
    /// Each unit has at most one sample.
    pub closed spec fn wf(&self) -> bool {
        entries_unique(self.entries@)
    }

    /// A tracker that has seen no unit yet.
    pub fn new() -> (t: Self)
        ensures
            t.wf(),
            t@ == Map::<Seq<char>, CpuSample>::empty(),
    {
        let t = CpuTracker { entries: Vec::new() };
        assert(t@ =~= Map::<Seq<char>, CpuSample>::empty());
        t
    }

    /// Records a reading of `unit`'s CPU counter taken at `at_nsec` and
    /// returns the CPU use since the unit's previous reading. The first
    /// reading of a unit has nothing to compare with and gives `None`.
    pub fn record(&mut self, unit: &str, cpu_nsec: u64, at_nsec: u64) -> (load: Option<CpuLoad>)
        requires
            old(self).wf(),
        ensures
            final(self).wf(),
            final(self)@ == old(self)@.insert(unit@, CpuSample { cpu_nsec, at_nsec }),
            load == if old(self)@.contains_key(unit@) {
                load_since(old(self)@[unit@], cpu_nsec, at_nsec)
            } else {
                None
            },
            load matches Some(l) ==> l.wf(),
    {
        let ghost old_entries = self.entries@;
        let sample = CpuSample { cpu_nsec, at_nsec };
        let n = self.entries.len();
        let mut k: usize = 0;
        while k < n && !str_eq(self.entries[k].0.as_str(), unit)
            invariant
                n == self.entries@.len(),
                self.entries@ == old_entries,
                k <= n,
                forall|i: int| 0 <= i < k ==> self.entries@[i].0@ != unit@,
            decreases n - k,
        {
            k = k + 1;
        }
        proof {
            lemma_entries_lookup(old_entries, k as int, unit@);
        }
        if k < n {
            let prev = self.entries[k].1;
            self.entries.set(k, (String::from_str(unit), sample));
            proof {
                lemma_entries_write(old_entries, self.entries@, k as int, unit@, sample);
            }
            let elapsed: u64 = if at_nsec >= prev.at_nsec {
                at_nsec - prev.at_nsec
            } else {
                0
            };
            if elapsed == 0 || cpu_nsec < prev.cpu_nsec {
                None
            } else {
                Some(CpuLoad { busy: cpu_nsec - prev.cpu_nsec, window: elapsed, cores: 1 })
            }
        } else {
            self.entries.push((String::from_str(unit), sample));
            proof {
                lemma_entries_write(old_entries, self.entries@, k as int, unit@, sample);
            }
            None
        }
    }
}

/// A gauge reading, unless systemd reports it as not available (`u64::MAX`).
pub open spec fn available_u64(v: Option<u64>) -> Option<u64> {
    match v {
        Some(x) => if x != u64::MAX {
            Some(x)
        } else {
            None
        },
        None => None,
    }
}

/// The main process of a unit, unless there is none (pid 0).
pub open spec fn main_pids(pid: Option<u32>) -> Seq<u32> {
    match pid {
        Some(p) => if p != 0 {
            seq![p]
        } else {
            Seq::empty()
        },
        None => Seq::empty(),
    }
}

/// `r` is what a reading of `unit`'s properties at `at_nsec` shows, and
/// `after` the tracked samples after it, given the samples `before` it:
/// memory and main process when readable and set; CPU use since the unit's
/// previous sample (none for its first), the new sample replacing it.
pub open spec fn unit_reading(
    before: Map<Seq<char>, CpuSample>,
    unit: Seq<char>,
    memory_current: Option<u64>,
    main_pid: Option<u32>,
    cpu_usage_nsec: Option<u64>,
    at_nsec: u64,
    after: Map<Seq<char>, CpuSample>,
    r: Resources,
) -> bool {
    &&& r.mem_bytes == available_u64(memory_current)
    &&& r.pids@ == main_pids(main_pid)
    &&& match available_u64(cpu_usage_nsec) {
        Some(nsec) => {
            &&& after == before.insert(unit, CpuSample { cpu_nsec: nsec, at_nsec })
            &&& r.cpu == if before.contains_key(unit) {
                load_since(before[unit], nsec, at_nsec)
            } else {
                None
            }
        },
        None => after == before && r.cpu is None,
    }
}

/// Two readings of a unit not sampled before: the first shows no CPU use;
/// the second, later and with the counter no lower, shows the CPU time spent
/// between them over the time between them, and the memory when it is readable.
pub proof fn lemma_two_readings(
    before: Map<Seq<char>, CpuSample>,
    unit: Seq<char>,
    first: (Option<u64>, Option<u32>, u64, u64),
    between: Map<Seq<char>, CpuSample>,
    r1: Resources,
    second: (Option<u64>, Option<u32>, u64, u64),
    after: Map<Seq<char>, CpuSample>,
    r2: Resources,
)
    requires
        !before.contains_key(unit),
        unit_reading(before, unit, first.0, first.1, Some(first.2), first.3, between, r1),
        unit_reading(between, unit, second.0, second.1, Some(second.2), second.3, after, r2),
        first.2 != u64::MAX,
        second.2 != u64::MAX,
        first.2 <= second.2,
        first.3 < second.3,
    ensures
        r1.cpu is None,
        r2.cpu == Some(
            CpuLoad {
                busy: (second.2 - first.2) as u64,
                window: (second.3 - first.3) as u64,
                cores: 1,
            },
        ),
        r2.mem_bytes == available_u64(second.0),
        after.contains_key(unit),
{
    assert(between.contains_key(unit));
    assert(between[unit] == CpuSample { cpu_nsec: first.2, at_nsec: first.3 });
}

/// The resources of a unit from its `MemoryCurrent`, `MainPID` and
/// `CPUUsageNSec` properties (each `None` when it could not be read),
/// read at `at_nsec`. CPU use comes from the previous reading of the unit's
/// counter, which this reading replaces.
pub fn resources_from_unit(
    tracker: &mut CpuTracker,
    unit: &str,
    memory_current: Option<u64>,
    main_pid: Option<u32>,
    cpu_usage_nsec: Option<u64>,
    at_nsec: u64,
) -> (r: Resources)
    requires
        old(tracker).wf(),
    ensures
        final(tracker).wf(),
        unit_reading(
            old(tracker)@,
            unit@,
            memory_current,
            main_pid,
            cpu_usage_nsec,
            at_nsec,
            final(tracker)@,
            r,
        ),
{
    let mut res = Resources::default();
    if let Some(mem) = memory_current {
        if mem != u64::MAX {
            res.mem_bytes = Some(mem);
        }
    }
    if let Some(pid) = main_pid {
        if pid != 0 {
            res.pids.push(pid);
        }
    }
    if let Some(nsec) = cpu_usage_nsec {
        if nsec != u64::MAX {
            res.cpu = tracker.record(unit, nsec, at_nsec);
        }
    }
    proof {
        assert(res.pids@ =~= main_pids(main_pid));
    }
    res
}

} // verus!
