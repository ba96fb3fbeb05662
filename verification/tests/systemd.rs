use maestro::model::{Action, CpuLoad, Health, JobKind, JobState, Schedule};
use maestro::provider::systemd::{
    build_jobs, inside_home, map_health, map_state, plan_control, resources_from_unit, schedule_from_timer,
    trigger_target, unit_job, unit_kind, usec_to_secs, user_units, CpuTracker, LoadedUnit,
    UnitCall, UserUnit, JOB_MODE, PROVIDER_ID,
};

fn files(list: &[(&str, &str)]) -> Vec<(String, String)> {
    list.iter()
        .map(|(p, s)| (p.to_string(), s.to_string()))
        .collect()
}

fn loaded(name: &str, description: &str, active: &str) -> LoadedUnit {
    LoadedUnit {
        name: name.to_string(),
        description: description.to_string(),
        active_state: active.to_string(),
    }
}

#[test]
fn map_state_covers_systemd_states() {
    assert_eq!(map_state("active"), JobState::Active);
    assert_eq!(map_state("inactive"), JobState::Inactive);
    assert_eq!(map_state("failed"), JobState::Failed);
    assert_eq!(map_state("activating"), JobState::Activating);
    assert_eq!(map_state("deactivating"), JobState::Deactivating);
    assert_eq!(map_state("reloading"), JobState::Unknown);
    assert_eq!(map_state(""), JobState::Unknown);
}

#[test]
fn map_health_is_calm() {
    assert_eq!(map_health(JobState::Failed), Health::Failed);
    assert_eq!(map_health(JobState::Activating), Health::Degraded);
    assert_eq!(map_health(JobState::Deactivating), Health::Degraded);
    assert_eq!(map_health(JobState::Inactive), Health::Healthy);
    assert_eq!(map_health(JobState::Active), Health::Healthy);
    assert_eq!(map_health(JobState::Unknown), Health::Healthy);
}

#[test]
fn usec_to_secs_drops_unset_values() {
    assert_eq!(usec_to_secs(0), None);
    assert_eq!(usec_to_secs(u64::MAX), None);
    assert_eq!(usec_to_secs(1_700_000_000_999_999), Some(1_700_000_000));
    assert_eq!(usec_to_secs(999_999), Some(0));
}

#[test]
fn schedule_from_timer_reads_both_properties() {
    assert_eq!(
        schedule_from_timer(Some(2_000_000), None),
        Schedule {
            next_run: Some(2),
            last_run: None
        }
    );
    assert_eq!(
        schedule_from_timer(Some(0), Some(5_000_000)),
        Schedule {
            next_run: None,
            last_run: Some(5)
        }
    );
}

#[test]
fn unit_kind_by_suffix() {
    assert_eq!(unit_kind("backup.timer"), JobKind::Scheduled);
    assert_eq!(unit_kind("backup.service"), JobKind::Service);
}

#[test]
fn user_units_keeps_only_the_users_services_and_timers() {
    let units = user_units(
        "/home/u",
        &files(&[
            ("/usr/lib/systemd/user/pipewire.service", "enabled"),
            ("/home/u/.config/systemd/user/worker.service", "enabled"),
            ("/home/u/.config/systemd/user/backup.timer", "disabled"),
            ("/home/u/.config/systemd/user/sockets.socket", "enabled"),
            ("/home/u/.local/share/systemd/user/app.service", "static"),
            ("/run/user/1000/systemd/transient/app-x.scope", "transient"),
        ]),
    );
    let got: Vec<(String, String)> = units
        .iter()
        .map(|u| (u.name.clone(), u.file_state.clone()))
        .collect();
    assert_eq!(
        got,
        vec![
            ("app.service".to_string(), "static".to_string()),
            ("backup.timer".to_string(), "disabled".to_string()),
            ("worker.service".to_string(), "enabled".to_string()),
        ]
    );
}

#[test]
fn user_units_later_file_of_same_name_wins() {
    let units = user_units(
        "/home/u",
        &files(&[
            ("/home/u/.local/share/systemd/user/w.service", "static"),
            ("/home/u/.config/systemd/user/w.service", "enabled"),
        ]),
    );
    assert_eq!(
        units,
        vec![UserUnit {
            name: "w.service".to_string(),
            file_state: "enabled".to_string()
        }]
    );
}

#[test]
fn user_units_leave_out_other_homes_sharing_a_prefix() {
    let units = user_units(
        "/home/u",
        &files(&[
            ("/home/u2/.config/systemd/user/a.service", "enabled"),
            ("/home/u-backup/.config/systemd/user/b.service", "enabled"),
            ("/home/u/.config/systemd/user/c.service", "enabled"),
        ]),
    );
    let names: Vec<&str> = units.iter().map(|u| u.name.as_str()).collect();
    assert_eq!(names, vec!["c.service"]);
    let jobs = build_jobs(&units, &Vec::new(), &Vec::new());
    assert_eq!(jobs.len(), 1);
    assert_eq!(jobs[0].local_id, "c.service");
}

#[test]
fn user_units_with_trailing_slash_home() {
    let units = user_units(
        "/home/u/",
        &files(&[
            ("/home/u/.config/systemd/user/c.service", "enabled"),
            ("/home/u2/a.service", "enabled"),
        ]),
    );
    let names: Vec<&str> = units.iter().map(|u| u.name.as_str()).collect();
    assert_eq!(names, vec!["c.service"]);
}

#[test]
fn inside_home_is_directory_containment() {
    assert!(inside_home("/home/u", "/home/u/x.service"));
    assert!(inside_home("/home/u/", "/home/u/x.service"));
    assert!(!inside_home("/home/u", "/home/u2/x.service"));
    assert!(!inside_home("/home/u", "/home/u"));
    assert!(!inside_home("/home/u", "/home"));
    assert!(!inside_home("", "/home/u/x.service"));
    assert!(inside_home("/", "/etc/x.service"));
}

#[test]
fn user_units_without_home_is_empty() {
    let units = user_units("", &files(&[("/home/u/a.service", "enabled")]));
    assert!(units.is_empty());
}

#[test]
fn build_jobs_joins_loaded_state_and_schedules() {
    let units = vec![
        UserUnit {
            name: "backup.timer".to_string(),
            file_state: "enabled".to_string(),
        },
        UserUnit {
            name: "idle.service".to_string(),
            file_state: "disabled".to_string(),
        },
        UserUnit {
            name: "worker.service".to_string(),
            file_state: "enabled-runtime".to_string(),
        },
    ];
    let loaded = vec![
        loaded("worker.service", "old", "activating"),
        loaded("backup.timer", "Nightly backup", "active"),
        loaded("worker.service", "My worker", "failed"),
    ];
    let schedules = vec![(
        "backup.timer".to_string(),
        Schedule {
            next_run: Some(100),
            last_run: Some(50),
        },
    )];
    let jobs = build_jobs(&units, &loaded, &schedules);
    assert_eq!(jobs.len(), 3);

    let timer = &jobs[0];
    assert_eq!(timer.id, "systemd-user:backup.timer");
    assert_eq!(timer.provider, PROVIDER_ID);
    assert_eq!(timer.local_id, "backup.timer");
    assert_eq!(timer.kind, JobKind::Scheduled);
    assert_eq!(timer.description, "Nightly backup");
    assert_eq!(timer.state, JobState::Active);
    assert!(timer.enabled);
    assert_eq!(
        timer.schedule,
        Some(Schedule {
            next_run: Some(100),
            last_run: Some(50)
        })
    );
    assert_eq!(timer.health, Health::Healthy);

    let idle = &jobs[1];
    assert_eq!(idle.kind, JobKind::Service);
    assert_eq!(idle.description, "");
    assert_eq!(idle.state, JobState::Inactive);
    assert!(!idle.enabled);
    assert_eq!(idle.schedule, None);

    let worker = &jobs[2];
    assert_eq!(worker.description, "My worker");
    assert_eq!(worker.state, JobState::Failed);
    assert_eq!(worker.health, Health::Failed);
    assert!(worker.enabled);
    assert_eq!(worker.command, None);
    assert!(worker.resources.pids.is_empty());
}

#[test]
fn unit_job_of_timer_without_readable_schedule() {
    let unit = UserUnit {
        name: "t.timer".to_string(),
        file_state: "static".to_string(),
    };
    let job = unit_job(&unit, &Vec::new(), &Vec::new());
    assert_eq!(job.kind, JobKind::Scheduled);
    assert_eq!(job.schedule, None);
    assert!(!job.enabled);
}

#[test]
fn listing_is_sorted_by_name() {
    let units = user_units(
        "/h",
        &files(&[
            ("/h/u/zeta.service", "enabled"),
            ("/h/u/alpha.timer", "enabled"),
            ("/h/u/Mid.service", "enabled"),
        ]),
    );
    let jobs = build_jobs(&units, &Vec::new(), &Vec::new());
    let names: Vec<&str> = jobs.iter().map(|j| j.name.as_str()).collect();
    assert_eq!(names, vec!["Mid.service", "alpha.timer", "zeta.service"]);
}

#[test]
fn plan_control_maps_actions_to_manager_calls() {
    assert_eq!(
        plan_control("w.service", Action::Start),
        UnitCall::Start("w.service".to_string())
    );
    assert_eq!(
        plan_control("w.service", Action::Stop),
        UnitCall::Stop("w.service".to_string())
    );
    assert_eq!(
        plan_control("w.service", Action::Restart),
        UnitCall::Restart("w.service".to_string())
    );
    assert_eq!(
        plan_control("w.service", Action::Enable),
        UnitCall::Enable("w.service".to_string())
    );
    assert_eq!(
        plan_control("w.service", Action::Disable),
        UnitCall::Disable("w.service".to_string())
    );
    assert_eq!(
        plan_control("backup.timer", Action::TriggerNow),
        UnitCall::Start("backup.service".to_string())
    );
    assert_eq!(
        plan_control("w.service", Action::TriggerNow),
        UnitCall::Start("w.service".to_string())
    );
    assert_eq!(JOB_MODE, "replace");
}

#[test]
fn trigger_target_of_timer_is_its_service() {
    assert_eq!(trigger_target("backup.timer"), "backup.service");
    assert_eq!(trigger_target("x.service"), "x.service");
    assert_eq!(trigger_target(".timer"), ".service");
}

#[test]
fn first_cpu_reading_has_no_load() {
    let mut t = CpuTracker::new();
    assert_eq!(t.record("w.service", 1_000, 10), None);
    assert_eq!(
        t.record("w.service", 3_000, 20),
        Some(CpuLoad {
            busy: 2_000,
            window: 10,
            cores: 1
        })
    );
    // another unit starts from scratch
    assert_eq!(t.record("other.service", 5, 21), None);
}

#[test]
fn cpu_reading_without_progress_has_no_load() {
    let mut t = CpuTracker::new();
    assert_eq!(t.record("w", 1_000, 10), None);
    // no time passed
    assert_eq!(t.record("w", 2_000, 10), None);
    // counter went backwards (unit restarted)
    assert_eq!(t.record("w", 500, 30), None);
    // the last reading is the base for the next one
    assert_eq!(
        t.record("w", 800, 40),
        Some(CpuLoad {
            busy: 300,
            window: 10,
            cores: 1
        })
    );
}

#[test]
fn resources_from_unit_reads_properties() {
    let mut t = CpuTracker::new();
    let r = resources_from_unit(&mut t, "w", Some(4096), Some(77), Some(100), 1);
    assert_eq!(r.mem_bytes, Some(4096));
    assert_eq!(r.pids, vec![77]);
    assert_eq!(r.cpu, None);
    let r = resources_from_unit(&mut t, "w", Some(u64::MAX), Some(0), Some(300), 11);
    assert_eq!(r.mem_bytes, None);
    assert!(r.pids.is_empty());
    assert_eq!(
        r.cpu,
        Some(CpuLoad {
            busy: 200,
            window: 10,
            cores: 1
        })
    );
    // an unavailable counter leaves the last reading in place
    let r = resources_from_unit(&mut t, "w", None, None, Some(u64::MAX), 21);
    assert_eq!(r.cpu, None);
    let r = resources_from_unit(&mut t, "w", None, None, Some(400), 31);
    assert_eq!(
        r.cpu,
        Some(CpuLoad {
            busy: 100,
            window: 20,
            cores: 1
        })
    );
}
