//! Rules of the Docker provider: how a container reads as a job, what each
//! action asks of the daemon, and the CPU share a stats reading shows.
use vstd::prelude::*;

use crate::error::Error;
use crate::model::{
    health_of, lemma_sorted_by_name_is_sorted_permutation, qualified_id, sort_by_name,
    sorted_by_name, Action, CpuLoad, Health, Job, JobKind, JobState, Resources,
};
use crate::text::{first_chars, str_eq, take_chars, trim_leading, trim_start};

verus! {

/// Stable id of this provider; the prefix of its jobs' global ids.
pub const PROVIDER_ID: &'static str = "docker";

/// The job state that a container state reads as.
pub open spec fn container_state(state: Seq<char>) -> JobState {
    if state == "running"@ {
        JobState::Active
    } else if state == "restarting"@ {
        JobState::Activating
    } else if state == "removing"@ || state == "paused"@ {
        JobState::Deactivating
    } else if state == "created"@ || state == "exited"@ {
        JobState::Inactive
    } else if state == "dead"@ {
        JobState::Failed
    } else {
        JobState::Unknown
    }
}

/// Maps a container state (`running`, `exited`, ...) to a [`JobState`].
pub fn map_state(state: &str) -> (s: JobState)
    ensures
        s == container_state(state@),
{
    if str_eq(state, "running") {
        JobState::Active
    } else if str_eq(state, "restarting") {
        JobState::Activating
    } else if str_eq(state, "removing") || str_eq(state, "paused") {
        JobState::Deactivating
    } else if str_eq(state, "created") || str_eq(state, "exited") {
        JobState::Inactive
    } else if str_eq(state, "dead") {
        JobState::Failed
    } else {
        JobState::Unknown
    }
}

/// Health a container state reads as.
pub fn map_health(state: JobState) -> (h: Health)
    ensures
        h == health_of(state),
{
    match state {
        JobState::Failed => Health::Failed,
        JobState::Activating | JobState::Deactivating => Health::Degraded,
        _ => Health::Healthy,
    }
}

/// A failure the daemon reported, worded for the UI.
pub fn docker_error(detail: &str) -> (e: Error)
    ensures
        e matches Error::Other(m) && m@ == "docker: "@ + detail@,
{
    Error::Other(String::from_str("docker: ").concat(detail))
}

/// Why the provider could not start: the daemon could not be reached at all,
/// or it did not answer the ping.
pub fn connect_error(detail: &str, at_ping: bool) -> (e: Error)
    ensures
        e matches Error::Unavailable(m) && m@ == (if at_ping {
            "docker ping: "@
        } else {
            "docker: "@
        }) + detail@,
{
    if at_ping {
        Error::Unavailable(String::from_str("docker ping: ").concat(detail))
    } else {
        Error::Unavailable(String::from_str("docker: ").concat(detail))
    }
}

/// What the container listing tells of one container.
#[derive(Debug, Clone, PartialEq)]
pub struct ContainerInfo {
    pub id: Option<String>,
    pub names: Option<Vec<String>>,
    pub image: Option<String>,
    pub command: Option<String>,
    pub state: Option<String>,
}

/// The text of an optional field, empty when absent.
pub open spec fn text_or_empty(s: Option<String>) -> Seq<char> {
    match s {
        Some(x) => x@,
        None => Seq::empty(),
    }
}

/// The name shown for a container: its first name without the leading `/`,
/// or, when it has no name, the first 12 characters of its id.
pub open spec fn display_name(id: Seq<char>, names: Option<Vec<String>>) -> Seq<char> {
    match names {
        Some(v) => if v@.len() > 0 {
            trim_leading(v@[0]@, '/')
        } else {
            first_chars(id, 12)
        },
        None => first_chars(id, 12),
    }
}

/// Containers without an id are not listed.
pub open spec fn has_id(c: ContainerInfo) -> bool {
    text_or_empty(c.id).len() > 0
}

/// `job` is how the container `c` reads.
pub open spec fn is_container_job(job: Job, c: ContainerInfo) -> bool {
    let id = text_or_empty(c.id);
    let state = container_state(text_or_empty(c.state));
    &&& job.id@ == qualified_id(PROVIDER_ID@, id)
    &&& job.provider@ == PROVIDER_ID@
    &&& job.local_id@ == id
    &&& job.kind == JobKind::Container
    &&& job.name@ == display_name(id, c.names)
    &&& job.description@ == text_or_empty(c.image)
    &&& match (job.command, c.command) {
        (Some(a), Some(b)) => a@ == b@,
        (None, None) => true,
        _ => false,
    }
    &&& job.state == state
    &&& !job.enabled
    &&& job.schedule is None
    &&& job.resources.is_empty()
    &&& job.health == health_of(state)
}

fn copy_text(s: &Option<String>) -> (r: String)
    ensures
        r@ == text_or_empty(*s),
{
    match s {
        Some(x) => x.clone(),
        None => String::new(),
    }
}

/// The name shown for a container.
pub fn container_name(id: &str, names: &Option<Vec<String>>) -> (name: String)
    ensures
        name@ == display_name(id@, *names),
{
    match names {
        Some(v) => {
            if v.len() > 0 {
                String::from_str(trim_start(v[0].as_str(), '/'))
            } else {
                String::from_str(take_chars(id, 12))
            }
        },
        None => String::from_str(take_chars(id, 12)),
    }
}

/// The job a container reads as; `None` for a container without an id.
/// Autostart (the restart policy) is not read: containers list as not enabled.
pub fn container_job(c: &ContainerInfo) -> (r: Option<Job>)
    ensures
        match r {
            Some(job) => has_id(*c) && is_container_job(job, *c),
            None => !has_id(*c),
        },
{
    let id = copy_text(&c.id);
    if id.as_str().unicode_len() == 0 {
        return None;
    }
    let name = container_name(id.as_str(), &c.names);
    let state = map_state(copy_text(&c.state).as_str());
    let command = match &c.command {
        Some(cmd) => Some(cmd.clone()),
        None => None,
    };
    Some(
        Job {
            id: Job::global_id(PROVIDER_ID, id.as_str()),
            provider: String::from_str(PROVIDER_ID),
            local_id: id,
            kind: JobKind::Container,
            name,
            description: copy_text(&c.image),
            command,
            state,
            enabled: false,
            schedule: None,
            resources: Resources::default(),
            health: map_health(state),
        },
    )
}

/// The containers that have an id, in listing order.
pub open spec fn listed_containers(cs: Seq<ContainerInfo>) -> Seq<ContainerInfo>
    decreases cs.len(),
{
    if cs.len() == 0 {
        cs
    } else if has_id(cs.last()) {
        listed_containers(cs.drop_last()).push(cs.last())
    } else {
        listed_containers(cs.drop_last())
    }
}

/// `jobs` is the listing of `containers`: the jobs of the containers that
/// have an id, sorted by name.
pub open spec fn lists_containers(containers: Seq<ContainerInfo>, jobs: Seq<Job>) -> bool {
    exists|listed: Seq<Job>|
        {
            &&& listed.len() == listed_containers(containers).len()
            &&& forall|i: int|
                0 <= i < listed.len() ==> is_container_job(
                    #[trigger] listed[i],
                    listed_containers(containers)[i],
                )
            &&& jobs == sorted_by_name(listed)
        }
}

/// A container has a (non-empty) id.
pub open spec fn container_has_id(c: ContainerInfo) -> bool {
    c.id is Some && c.id->0@.len() > 0
}

proof fn lemma_listed_containers_filter(cs: Seq<ContainerInfo>)
    ensures
        listed_containers(cs) == cs.filter(|c: ContainerInfo| container_has_id(c)),
    decreases cs.len(),
{
    reveal(Seq::filter);
    if cs.len() > 0 {
        lemma_listed_containers_filter(cs.drop_last());
    }
}

/// Every container that has an id is listed, whatever its state, each
/// exactly once: the listing holds as many jobs as there are containers with
/// an id, and each of them has a job with its id as local id and
/// `docker:<id>` as global id.
pub proof fn lemma_every_container_listed(containers: Seq<ContainerInfo>, jobs: Seq<Job>)
    requires
        lists_containers(containers, jobs),
    ensures
        jobs.len() == containers.filter(|c: ContainerInfo| container_has_id(c)).len(),
        forall|i: int|
            0 <= i < containers.len() && #[trigger] container_has_id(containers[i]) ==> exists|k: int|
                0 <= k < jobs.len() && jobs[k].local_id@ == containers[i].id->0@ && jobs[k].id@
                    == "docker"@ + seq![':'] + containers[i].id->0@,
{
    let pred = |c: ContainerInfo| container_has_id(c);
    let listed = choose|listed: Seq<Job>|
        {
            &&& listed.len() == listed_containers(containers).len()
            &&& forall|i: int|
                0 <= i < listed.len() ==> is_container_job(
                    #[trigger] listed[i],
                    listed_containers(containers)[i],
                )
            &&& jobs == sorted_by_name(listed)
        };
    lemma_listed_containers_filter(containers);
    lemma_sorted_by_name_is_sorted_permutation(listed);
    vstd::seq_lib::to_multiset_len(listed);
    vstd::seq_lib::to_multiset_len(jobs);
    containers.filter_lemma(pred);
    assert forall|i: int|
        0 <= i < containers.len() && #[trigger] container_has_id(containers[i]) implies exists|k: int|
        0 <= k < jobs.len() && jobs[k].local_id@ == containers[i].id->0@ && jobs[k].id@
            == "docker"@ + seq![':'] + containers[i].id->0@ by {
        assert(pred(containers[i]));
        let f = containers.filter(pred);
        assert(f.contains(containers[i]));
        let j = choose|j: int| 0 <= j < f.len() && f[j] == containers[i];
        assert(is_container_job(listed[j], f[j]));
        vstd::seq_lib::to_multiset_contains(listed, listed[j]);
        assert(listed.contains(listed[j]));
        vstd::seq_lib::to_multiset_contains(jobs, listed[j]);
        let k = choose|k: int| 0 <= k < jobs.len() && jobs[k] == listed[j];
        assert(jobs[k].local_id@ == containers[i].id->0@);
    }
}

/// Each known container state reads as its job state, every other text as unknown.
pub proof fn lemma_container_states(state: Seq<char>)
    ensures
        (container_state(state) == JobState::Active) <==> state == "running"@,
        (container_state(state) == JobState::Activating) <==> state == "restarting"@,
        (container_state(state) == JobState::Deactivating) <==> (state == "removing"@ || state
            == "paused"@),
        (container_state(state) == JobState::Inactive) <==> (state == "created"@ || state
            == "exited"@),
        (container_state(state) == JobState::Failed) <==> state == "dead"@,
        (container_state(state) == JobState::Unknown) <==> (state != "running"@ && state
            != "restarting"@ && state != "removing"@ && state != "paused"@ && state != "created"@
            && state != "exited"@ && state != "dead"@),
{
    reveal_strlit("running");
    reveal_strlit("restarting");
    reveal_strlit("removing");
    reveal_strlit("paused");
    reveal_strlit("created");
    reveal_strlit("exited");
    reveal_strlit("dead");
    assert("running"@[0] != "created"@[0]);
    assert("paused"@[0] != "exited"@[0]);
    assert("running"@.len() != "restarting"@.len());
    assert("running"@.len() != "removing"@.len());
    assert("running"@.len() != "paused"@.len());
    assert("running"@.len() != "exited"@.len());
    assert("running"@.len() != "dead"@.len());
    assert("restarting"@.len() != "removing"@.len());
    assert("restarting"@.len() != "paused"@.len());
    assert("restarting"@.len() != "created"@.len());
    assert("restarting"@.len() != "exited"@.len());
    assert("restarting"@.len() != "dead"@.len());
    assert("removing"@.len() != "created"@.len());
    assert("removing"@.len() != "exited"@.len());
    assert("removing"@.len() != "dead"@.len());
    assert("paused"@.len() != "created"@.len());
    assert("paused"@.len() != "dead"@.len());
    assert("created"@.len() != "dead"@.len());
    assert("exited"@.len() != "dead"@.len());
}

/// How a container reads as a job: its id is the local id and `docker:<id>`
/// the global one; its name is its first name without leading `/`s, or the
/// first 12 characters of the id when it has none; the image is the
/// description; the command is kept as it is; containers are never enabled
/// nor scheduled; health is failed exactly for a failed job, degraded exactly
/// while it activates or deactivates.
pub proof fn lemma_container_job_reads_its_container(job: Job, c: ContainerInfo)
    requires
        container_has_id(c),
        is_container_job(job, c),
    ensures
        job.local_id@ == c.id->0@,
        job.id@ == "docker"@ + seq![':'] + c.id->0@,
        job.kind == JobKind::Container,
        !job.enabled,
        job.schedule is None,
        c.names is Some && c.names->0@.len() > 0 ==> job.name@ == trim_leading(
            c.names->0@[0]@,
            '/',
        ),
        !(c.names is Some && c.names->0@.len() > 0) && c.id->0@.len() <= 12 ==> job.name@
            == c.id->0@,
        !(c.names is Some && c.names->0@.len() > 0) && c.id->0@.len() > 12 ==> job.name@
            == c.id->0@.take(12),
        c.image is Some ==> job.description@ == c.image->0@,
        c.image is None ==> job.description@.len() == 0,
        c.command is None <==> job.command is None,
        c.command is Some ==> job.command->0@ == c.command->0@,
        (job.health == Health::Failed) <==> (job.state == JobState::Failed),
        (job.health == Health::Degraded) <==> (job.state == JobState::Activating || job.state
            == JobState::Deactivating),
{
}

/// Docker's CPU share is read only when the host counter advanced and the
/// container's did not go back; it is then the container's CPU time over the
/// host's since the previous reading, on the online CPUs (at least one).
pub proof fn lemma_docker_cpu_share(s: ContainerStats)
    ensures
        docker_cpu_load(s) is Some <==> (s.system_cpu_usage.unwrap_or(0)
            > s.presystem_cpu_usage.unwrap_or(0) && s.cpu_total_usage >= s.precpu_total_usage),
        docker_cpu_load(s) matches Some(l) ==> {
            &&& l.busy + s.precpu_total_usage == s.cpu_total_usage
            &&& l.window + s.presystem_cpu_usage.unwrap_or(0) == s.system_cpu_usage.unwrap_or(0)
            &&& l.cores >= 1
            &&& (s.online_cpus is Some && s.online_cpus->0 >= 1 ==> l.cores == s.online_cpus->0)
            &&& (!(s.online_cpus is Some && s.online_cpus->0 >= 1) ==> l.cores == 1)
            &&& l.wf()
        },
{
}

/// The jobs of the containers (those without an id left out), sorted by
/// name; containers of the same name keep the daemon's order.
pub fn jobs_from_containers(containers: &Vec<ContainerInfo>) -> (jobs: Vec<Job>)
    ensures
        lists_containers(containers@, jobs@),
{
    let mut listed: Vec<Job> = Vec::new();
    let n = containers.len();
    let mut i: usize = 0;
    while i < n
        invariant
            n == containers@.len(),
            i <= n,
            listed@.len() == listed_containers(containers@.take(i as int)).len(),
            forall|k: int|
                0 <= k < listed@.len() ==> is_container_job(
                    #[trigger] listed@[k],
                    listed_containers(containers@.take(i as int))[k],
                ),
        decreases n - i,
    {
        assert(containers@.take(i + 1).drop_last() =~= containers@.take(i as int));
        assert(containers@.take(i + 1).last() == containers@[i as int]);
        match container_job(&containers[i]) {
            Some(job) => listed.push(job),
            None => {},
        }
        i = i + 1;
    }
    assert(containers@.take(n as int) =~= containers@);
    let ghost listed_seq = listed@;
    let jobs = sort_by_name(listed);
    assert(jobs@ == sorted_by_name(listed_seq));
    jobs
}

/// A daemon call on a container.
#[derive(Debug, Clone, Copy, PartialEq, Eq, Structural)]
pub enum ContainerCall {
    Start,
    Stop,
    Restart,
}

/// Plans an action on a container. "Run now" starts it; autostart is not
/// something this provider can change.
pub fn plan_control(action: Action) -> (r: Result<ContainerCall, Error>)
    ensures
        match action {
            Action::Start | Action::TriggerNow => r matches Ok(ContainerCall::Start),
            Action::Stop => r matches Ok(ContainerCall::Stop),
            Action::Restart => r matches Ok(ContainerCall::Restart),
            Action::Enable | Action::Disable => r matches Err(Error::Unsupported(m)) && m@
                == "autostart de container"@,
        },
{
    match action {
        Action::Start | Action::TriggerNow => Ok(ContainerCall::Start),
        Action::Stop => Ok(ContainerCall::Stop),
        Action::Restart => Ok(ContainerCall::Restart),
        Action::Enable | Action::Disable => Err(
            Error::Unsupported(String::from_str("autostart de container")),
        ),
    }
}

/// What a one-shot stats reading of a container tells: memory in use, and
/// the container's and the host's CPU counters now and at the previous reading.
#[derive(Debug, Clone, Copy, PartialEq, Eq, Structural)]
pub struct ContainerStats {
    pub memory_usage: Option<u64>,
    pub cpu_total_usage: u64,
    pub precpu_total_usage: u64,
    pub system_cpu_usage: Option<u64>,
    pub presystem_cpu_usage: Option<u64>,
    pub online_cpus: Option<u64>,
}

/// Docker's CPU share: the container's CPU time over the host's, times the
/// number of online CPUs (at least one). Nothing when the host counter did
/// not advance or the container's went backwards. (A missing host counter counts as 0.)
pub open spec fn docker_cpu_load(s: ContainerStats) -> Option<CpuLoad> {
    let sys = match s.system_cpu_usage {
        Some(v) => v,
        None => 0,
    };
    let presys = match s.presystem_cpu_usage {
        Some(v) => v,
        None => 0,
    };
    let cpus: u64 = match s.online_cpus {
        Some(n) => if n >= 1 {
            n
        } else {
            1
        },
        None => 1,
    };
    if sys > presys && s.cpu_total_usage >= s.precpu_total_usage {
        Some(
            CpuLoad {
                busy: (s.cpu_total_usage - s.precpu_total_usage) as u64,
                window: (sys - presys) as u64,
                cores: cpus,
            },
        )
    } else {
        None
    }
}

/// The resources a stats reading shows: memory in use and the CPU share.
pub fn resources_from_stats(s: &ContainerStats) -> (r: Resources)
    ensures
        r.mem_bytes == s.memory_usage,
        r.cpu == docker_cpu_load(*s),
        r.pids@.len() == 0,
        r.cpu matches Some(l) ==> l.wf(),
{
    let mut res = Resources::default();
    res.mem_bytes = s.memory_usage;
    let sys = match s.system_cpu_usage {
        Some(v) => v,
        None => 0,
    };
    let presys = match s.presystem_cpu_usage {
        Some(v) => v,
        None => 0,
    };
    let cpus: u64 = match s.online_cpus {
        Some(n) => if n >= 1 {
            n
        } else {
            1
        },
        None => 1,
    };
    if sys > presys && s.cpu_total_usage >= s.precpu_total_usage {
        res.cpu = Some(
            CpuLoad {
                busy: s.cpu_total_usage - s.precpu_total_usage,
                window: sys - presys,
                cores: cpus,
            },
        );
    }
    res
}

} // verus!
