use maestro::error::Error;
use maestro::model::{sort_by_name, Health, Job, JobKind, JobState, Resources};

#[test]
fn global_id_round_trips() {
    let id = Job::global_id("systemd-user", "my-worker.service");
    assert_eq!(id, "systemd-user:my-worker.service");
    assert_eq!(
        Job::split_id(&id),
        Some(("systemd-user", "my-worker.service"))
    );
}

#[test]
fn split_id_divides_on_first_colon() {
    assert_eq!(
        Job::split_id("docker:my:container"),
        Some(("docker", "my:container"))
    );
}

#[test]
fn split_id_rejects_unqualified() {
    assert_eq!(Job::split_id("semprovedor"), None);
}

#[test]
fn split_id_keeps_empty_parts() {
    assert_eq!(Job::split_id(":x"), Some(("", "x")));
    assert_eq!(Job::split_id("p:"), Some(("p", "")));
    assert_eq!(Job::split_id(""), None);
}

#[test]
fn global_id_round_trips_with_colons_in_local_id() {
    let id = Job::global_id("docker", "a:b:c");
    assert_eq!(id, "docker:a:b:c");
    assert_eq!(Job::split_id(&id), Some(("docker", "a:b:c")));
}

#[test]
fn global_id_handles_non_ascii() {
    let id = Job::global_id("prov", "serviço-ç.service");
    assert_eq!(id, "prov:serviço-ç.service");
    assert_eq!(Job::split_id(&id), Some(("prov", "serviço-ç.service")));
}

fn job(name: &str, description: &str) -> Job {
    Job {
        id: Job::global_id("p", name),
        provider: "p".to_string(),
        local_id: name.to_string(),
        kind: JobKind::Service,
        name: name.to_string(),
        description: description.to_string(),
        command: None,
        state: JobState::Active,
        enabled: false,
        schedule: None,
        resources: Resources::default(),
        health: Health::Healthy,
    }
}

#[test]
fn sort_by_name_orders_and_is_stable() {
    let jobs = vec![
        job("b", "1"),
        job("a", "2"),
        job("b", "3"),
        job("Z", "4"),
        job("a", "5"),
    ];
    let sorted = sort_by_name(jobs);
    let got: Vec<(String, String)> = sorted
        .iter()
        .map(|j| (j.name.clone(), j.description.clone()))
        .collect();
    let want: Vec<(String, String)> = vec![
        ("Z", "4"),
        ("a", "2"),
        ("a", "5"),
        ("b", "1"),
        ("b", "3"),
    ]
    .into_iter()
    .map(|(a, b)| (a.to_string(), b.to_string()))
    .collect();
    assert_eq!(got, want);
}

#[test]
fn sort_by_name_matches_std_sort() {
    let names = ["web", "db", "Web", "dé", "de", "", "d", "zz", "db"];
    let jobs: Vec<Job> = names.iter().enumerate().map(|(i, n)| job(n, &i.to_string())).collect();
    let mut expected = jobs.clone();
    expected.sort_by(|a, b| a.name.cmp(&b.name));
    assert_eq!(sort_by_name(jobs), expected);
}

#[test]
fn sort_by_name_of_nothing() {
    assert_eq!(sort_by_name(Vec::new()), Vec::<Job>::new());
}

#[test]
fn resources_default_is_empty() {
    let r = Resources::default();
    assert_eq!(r.cpu, None);
    assert_eq!(r.mem_bytes, None);
    assert!(r.pids.is_empty());
}

#[test]
fn error_messages() {
    assert_eq!(
        Error::Unavailable("docker".to_string()).message(),
        "provider indisponível: docker"
    );
    assert_eq!(Error::NotFound("x".to_string()).message(), "job não encontrado: x");
    assert_eq!(
        Error::InvalidId("a.service".to_string()).message(),
        "id de job inválido (esperado 'provider:local_id'): a.service"
    );
    assert_eq!(
        Error::Unsupported("logs".to_string()).message(),
        "operação não suportada: logs"
    );
    assert_eq!(Error::Dbus("boom".to_string()).message(), "erro de D-Bus: boom");
    assert_eq!(Error::Other("docker: x".to_string()).message(), "docker: x");
}
