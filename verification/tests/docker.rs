use maestro::error::Error;
use maestro::model::{Action, CpuLoad, Health, JobKind, JobState};
use maestro::provider::docker::{
    connect_error, container_job, container_name, docker_error, jobs_from_containers, map_health,
    map_state, plan_control, resources_from_stats, ContainerCall, ContainerInfo, ContainerStats,
    PROVIDER_ID,
};

fn container(id: Option<&str>, names: Option<Vec<&str>>, state: &str) -> ContainerInfo {
    ContainerInfo {
        id: id.map(|s| s.to_string()),
        names: names.map(|v| v.into_iter().map(|s| s.to_string()).collect()),
        image: Some("nginx:latest".to_string()),
        command: Some("nginx -g 'daemon off;'".to_string()),
        state: Some(state.to_string()),
    }
}

#[test]
fn map_state_covers_container_states() {
    assert_eq!(map_state("running"), JobState::Active);
    assert_eq!(map_state("restarting"), JobState::Activating);
    assert_eq!(map_state("removing"), JobState::Deactivating);
    assert_eq!(map_state("paused"), JobState::Deactivating);
    assert_eq!(map_state("created"), JobState::Inactive);
    assert_eq!(map_state("exited"), JobState::Inactive);
    assert_eq!(map_state("dead"), JobState::Failed);
    assert_eq!(map_state(""), JobState::Unknown);
}

#[test]
fn map_health_of_container_states() {
    assert_eq!(map_health(JobState::Failed), Health::Failed);
    assert_eq!(map_health(JobState::Deactivating), Health::Degraded);
    assert_eq!(map_health(JobState::Inactive), Health::Healthy);
}

#[test]
fn container_name_prefers_first_name() {
    let names = Some(vec!["/web".to_string(), "/alias".to_string()]);
    assert_eq!(container_name("0123456789abcdef", &names), "web");
    assert_eq!(container_name("0123456789abcdef", &None), "0123456789ab");
    assert_eq!(container_name("0123456789abcdef", &Some(Vec::new())), "0123456789ab");
    assert_eq!(container_name("abc", &None), "abc");
}

#[test]
fn container_job_reads_a_container() {
    let job = container_job(&container(Some("abc123"), Some(vec!["/web"]), "running")).unwrap();
    assert_eq!(job.id, "docker:abc123");
    assert_eq!(job.provider, PROVIDER_ID);
    assert_eq!(job.local_id, "abc123");
    assert_eq!(job.kind, JobKind::Container);
    assert_eq!(job.name, "web");
    assert_eq!(job.description, "nginx:latest");
    assert_eq!(job.command.as_deref(), Some("nginx -g 'daemon off;'"));
    assert_eq!(job.state, JobState::Active);
    assert!(!job.enabled);
    assert_eq!(job.schedule, None);
    assert_eq!(job.health, Health::Healthy);
}

#[test]
fn container_without_id_is_skipped() {
    assert_eq!(container_job(&container(None, None, "running")), None);
    assert_eq!(container_job(&container(Some(""), None, "running")), None);
}

#[test]
fn jobs_from_containers_sorts_by_name_stably() {
    let cs = vec![
        container(Some("1"), Some(vec!["/b"]), "exited"),
        container(None, Some(vec!["/a"]), "running"),
        container(Some("2"), Some(vec!["/a"]), "dead"),
        container(Some("3"), Some(vec!["/b"]), "running"),
    ];
    let jobs = jobs_from_containers(&cs);
    let got: Vec<(&str, &str)> = jobs
        .iter()
        .map(|j| (j.name.as_str(), j.local_id.as_str()))
        .collect();
    assert_eq!(got, vec![("a", "2"), ("b", "1"), ("b", "3")]);
    assert_eq!(jobs[0].health, Health::Failed);
}

#[test]
fn plan_control_for_containers() {
    assert_eq!(plan_control(Action::Start), Ok(ContainerCall::Start));
    assert_eq!(plan_control(Action::TriggerNow), Ok(ContainerCall::Start));
    assert_eq!(plan_control(Action::Stop), Ok(ContainerCall::Stop));
    assert_eq!(plan_control(Action::Restart), Ok(ContainerCall::Restart));
    assert_eq!(
        plan_control(Action::Enable),
        Err(Error::Unsupported("autostart de container".to_string()))
    );
    assert_eq!(
        plan_control(Action::Disable),
        Err(Error::Unsupported("autostart de container".to_string()))
    );
}

#[test]
fn docker_errors_are_worded() {
    assert_eq!(docker_error("boom"), Error::Other("docker: boom".to_string()));
    assert_eq!(
        connect_error("no socket", false),
        Error::Unavailable("docker: no socket".to_string())
    );
    assert_eq!(
        connect_error("timeout", true),
        Error::Unavailable("docker ping: timeout".to_string())
    );
}

fn stats(total: u64, pretotal: u64, sys: Option<u64>, presys: Option<u64>, cpus: Option<u64>) -> ContainerStats {
    ContainerStats {
        memory_usage: Some(2048),
        cpu_total_usage: total,
        precpu_total_usage: pretotal,
        system_cpu_usage: sys,
        presystem_cpu_usage: presys,
        online_cpus: cpus,
    }
}

#[test]
fn resources_from_stats_docker_formula() {
    let r = resources_from_stats(&stats(300, 100, Some(2000), Some(1000), Some(4)));
    assert_eq!(r.mem_bytes, Some(2048));
    assert_eq!(
        r.cpu,
        Some(CpuLoad {
            busy: 200,
            window: 1000,
            cores: 4
        })
    );
    assert!(r.pids.is_empty());
    // no online cpu count, or zero of them: one core
    let r = resources_from_stats(&stats(300, 100, Some(2000), Some(1000), Some(0)));
    assert_eq!(r.cpu.unwrap().cores, 1);
    let r = resources_from_stats(&stats(300, 100, Some(2000), None, None));
    assert_eq!(
        r.cpu,
        Some(CpuLoad {
            busy: 200,
            window: 2000,
            cores: 1
        })
    );
}

#[test]
fn resources_from_stats_without_progress_has_no_cpu() {
    assert_eq!(resources_from_stats(&stats(300, 100, Some(1000), Some(1000), None)).cpu, None);
    assert_eq!(resources_from_stats(&stats(300, 100, None, None, None)).cpu, None);
    assert_eq!(resources_from_stats(&stats(100, 300, Some(2000), Some(1000), None)).cpu, None);
    // an unchanged container counter is a 0% reading
    assert_eq!(
        resources_from_stats(&stats(100, 100, Some(2000), Some(1000), None)).cpu,
        Some(CpuLoad {
            busy: 0,
            window: 1000,
            cores: 1
        })
    );
}
