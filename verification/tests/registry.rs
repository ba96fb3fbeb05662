use std::cell::RefCell;

use maestro::error::Error;
use maestro::model::{Action, CpuLoad, Health, Job, JobKind, JobState, Resources};
use maestro::registry::Registry;

/// In-memory provider standing in for a mechanism.
struct FakeProvider {
    id: &'static str,
    available: bool,
    jobs: Vec<Job>,
    calls: RefCell<Vec<(String, Action)>>,
}

impl FakeProvider {
    fn new(id: &'static str, available: bool, local_ids: &[&str]) -> Self {
        let jobs = local_ids
            .iter()
            .map(|lid| Job {
                id: Job::global_id(id, lid),
                provider: id.to_string(),
                local_id: lid.to_string(),
                kind: JobKind::Service,
                name: lid.to_string(),
                description: format!("fake {lid}"),
                command: None,
                state: JobState::Active,
                enabled: true,
                schedule: None,
                resources: Resources::default(),
                health: Health::Healthy,
            })
            .collect();
        FakeProvider {
            id,
            available,
            jobs,
            calls: RefCell::new(Vec::new()),
        }
    }

    fn list(&self) -> Result<Vec<Job>, Error> {
        if !self.available {
            return Err(Error::Unavailable(self.id.to_string()));
        }
        Ok(self.jobs.clone())
    }

    fn control(&self, local_id: &str, action: Action) -> Result<(), Error> {
        if !self.jobs.iter().any(|j| j.local_id == local_id) {
            return Err(Error::NotFound(local_id.to_string()));
        }
        self.calls.borrow_mut().push((local_id.to_string(), action));
        Ok(())
    }

    fn metrics(&self, local_id: &str) -> Result<Resources, Error> {
        if !self.jobs.iter().any(|j| j.local_id == local_id) {
            return Err(Error::NotFound(local_id.to_string()));
        }
        Ok(Resources {
            cpu: Some(CpuLoad {
                busy: 3,
                window: 200,
                cores: 1,
            }),
            mem_bytes: Some(1024),
            pids: vec![42],
        })
    }
}

/// The providers behind the routing table, as the application holds them.
struct Providers {
    routes: Registry,
    providers: Vec<FakeProvider>,
}

impl Providers {
    fn list_all(&self) -> Vec<Job> {
        Registry::merge_listings(self.providers.iter().map(|p| p.list()).collect())
    }

    fn control(&self, global_id: &str, action: Action) -> Result<(), Error> {
        let (i, local_id) = self.routes.route(global_id)?;
        self.providers[i].control(&local_id, action)
    }

    fn metrics(&self, global_id: &str) -> Result<Resources, Error> {
        let (i, local_id) = self.routes.route(global_id)?;
        self.providers[i].metrics(&local_id)
    }
}

fn registry() -> Providers {
    let providers = vec![
        FakeProvider::new("systemd-user", true, &["a.service", "b.timer"]),
        FakeProvider::new("docker", false, &[]),
    ];
    let routes = Registry::new(providers.iter().map(|p| p.id.to_string()).collect());
    Providers { routes, providers }
}

#[test]
fn list_all_skips_unavailable_provider() {
    let reg = registry();
    let jobs = reg.list_all();
    // docker is unavailable: only the two systemd jobs come through.
    assert_eq!(jobs.len(), 2);
    assert!(jobs.iter().all(|j| j.provider == "systemd-user"));
}

#[test]
fn control_routes_to_correct_provider() {
    let reg = registry();
    reg.control("systemd-user:a.service", Action::Restart).unwrap();
    let jobs = reg.list_all();
    assert!(jobs.iter().any(|j| j.local_id == "a.service"));
    assert_eq!(
        *reg.providers[0].calls.borrow(),
        vec![("a.service".to_string(), Action::Restart)]
    );
}

#[test]
fn control_rejects_unqualified_id() {
    let reg = registry();
    let err = reg.control("a.service", Action::Start).unwrap_err();
    assert!(matches!(err, Error::InvalidId(_)));
}

#[test]
fn control_rejects_unknown_provider() {
    let reg = registry();
    let err = reg.control("cron:x", Action::Start).unwrap_err();
    assert!(matches!(err, Error::Unavailable(_)));
}

#[test]
fn metrics_routes_and_returns() {
    let reg = registry();
    let res = reg.metrics("systemd-user:a.service").unwrap();
    assert_eq!(res.mem_bytes, Some(1024));
}

#[test]
fn route_gives_provider_index_and_local_id() {
    let routes = Registry::new(vec!["systemd-user".to_string(), "docker".to_string()]);
    assert_eq!(routes.len(), 2);
    assert_eq!(routes.route("docker:my:container"), Ok((1, "my:container".to_string())));
    assert_eq!(routes.route("systemd-user:x.timer"), Ok((0, "x.timer".to_string())));
    assert_eq!(
        routes.route("cron:x"),
        Err(Error::Unavailable("cron".to_string()))
    );
    assert_eq!(
        routes.route("a.service"),
        Err(Error::InvalidId("a.service".to_string()))
    );
}

#[test]
fn route_picks_first_provider_of_a_repeated_id() {
    let routes = Registry::new(vec!["p".to_string(), "p".to_string()]);
    assert_eq!(routes.route("p:x"), Ok((0, "x".to_string())));
}

#[test]
fn route_of_global_id_reaches_its_provider() {
    let routes = Registry::new(vec!["systemd-user".to_string(), "docker".to_string()]);
    let id = Job::global_id("docker", "abc:def");
    assert_eq!(routes.route(&id), Ok((1, "abc:def".to_string())));
}

#[test]
fn control_unknown_job_is_not_found() {
    let reg = registry();
    let err = reg.control("systemd-user:nope.service", Action::Start).unwrap_err();
    assert_eq!(err, Error::NotFound("nope.service".to_string()));
}

#[test]
fn merge_listings_keeps_provider_order() {
    let a = FakeProvider::new("a", true, &["1", "2"]);
    let b = FakeProvider::new("b", false, &["x"]);
    let c = FakeProvider::new("c", true, &["3"]);
    let all = Registry::merge_listings(vec![a.list(), b.list(), c.list()]);
    let ids: Vec<&str> = all.iter().map(|j| j.id.as_str()).collect();
    assert_eq!(ids, vec!["a:1", "a:2", "c:3"]);
    assert!(Registry::merge_listings(vec![b.list()]).is_empty());
}
