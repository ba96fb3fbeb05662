use maestro::error::Error;
use maestro::events::{
    active_job_ids, metrics_snapshot, should_sample, WatchAction, WatchEvent, WatchState,
    BACKOFF_MAX_MS, BACKOFF_MIN_MS, DEBOUNCE_MS, HEARTBEAT_MS,
};
use maestro::model::{Health, Job, JobKind, JobState, Resources};

fn step(s: &mut WatchState, e: WatchEvent) -> WatchAction {
    let (next, action) = s.step(e);
    *s = next;
    action
}

#[test]
fn backoff_doubles_up_to_the_cap() {
    let mut s = WatchState::start();
    assert_eq!(s.backoff_ms, BACKOFF_MIN_MS);
    let mut waits = Vec::new();
    for _ in 0..9 {
        match step(&mut s, WatchEvent::StreamsEnded) {
            WatchAction::Reconnect(ms) => waits.push(ms),
            other => panic!("unexpected {other:?}"),
        }
    }
    assert_eq!(
        waits,
        vec![500, 1000, 2000, 4000, 8000, 16000, 30000, 30000, 30000]
    );
    assert_eq!(s.backoff_ms, BACKOFF_MAX_MS);
}

#[test]
fn a_connection_that_lived_resets_the_backoff() {
    let mut s = WatchState::start();
    step(&mut s, WatchEvent::StreamsEnded);
    step(&mut s, WatchEvent::StreamsEnded);
    assert_eq!(s.backoff_ms, 2000);
    step(&mut s, WatchEvent::Signal);
    step(&mut s, WatchEvent::PauseOver);
    assert_eq!(
        step(&mut s, WatchEvent::StreamsEnded),
        WatchAction::Reconnect(BACKOFF_MIN_MS)
    );
    assert_eq!(s.backoff_ms, 1000);
    assert!(!s.lived);
}

#[test]
fn a_burst_of_signals_relists_once() {
    let mut s = WatchState::start();
    assert_eq!(step(&mut s, WatchEvent::Signal), WatchAction::Pause(DEBOUNCE_MS));
    for _ in 0..5 {
        assert_eq!(step(&mut s, WatchEvent::Signal), WatchAction::Listen);
    }
    assert_eq!(step(&mut s, WatchEvent::PauseOver), WatchAction::Relist);
    // a stray end of pause with no burst does nothing
    assert_eq!(step(&mut s, WatchEvent::PauseOver), WatchAction::Listen);
    // the next signal starts a new burst
    assert_eq!(step(&mut s, WatchEvent::Signal), WatchAction::Pause(DEBOUNCE_MS));
    assert_eq!(step(&mut s, WatchEvent::PauseOver), WatchAction::Relist);
}

#[test]
fn no_streams_falls_back_to_the_heartbeat() {
    let mut s = WatchState::start();
    s.backoff_ms = 4000;
    let before = s;
    assert_eq!(
        step(&mut s, WatchEvent::NoStreams),
        WatchAction::Heartbeat(HEARTBEAT_MS)
    );
    assert_eq!(s, before);
}

#[test]
fn sampling_follows_window_visibility() {
    assert!(should_sample(None));
    assert!(should_sample(Some(true)));
    assert!(!should_sample(Some(false)));
}

fn job(local: &str, state: JobState) -> Job {
    Job {
        id: Job::global_id("p", local),
        provider: "p".to_string(),
        local_id: local.to_string(),
        kind: JobKind::Service,
        name: local.to_string(),
        description: String::new(),
        command: None,
        state,
        enabled: false,
        schedule: None,
        resources: Resources::default(),
        health: Health::Healthy,
    }
}

#[test]
fn sampler_reads_only_active_jobs() {
    let jobs = vec![
        job("a", JobState::Active),
        job("b", JobState::Inactive),
        job("c", JobState::Active),
        job("d", JobState::Failed),
    ];
    assert_eq!(active_job_ids(&jobs), vec!["p:a".to_string(), "p:c".to_string()]);
}

#[test]
fn snapshot_keeps_successful_readings() {
    let mut r = Resources::default();
    r.mem_bytes = Some(7);
    let readings = vec![
        ("p:a".to_string(), Ok(r.clone())),
        ("p:b".to_string(), Err(Error::NotFound("b".to_string()))),
    ];
    assert_eq!(metrics_snapshot(readings), Some(vec![("p:a".to_string(), r)]));
}

#[test]
fn snapshot_of_failed_readings_is_not_sent() {
    let readings = vec![("p:b".to_string(), Err(Error::NotFound("b".to_string())))];
    assert_eq!(metrics_snapshot(readings), None);
    assert_eq!(metrics_snapshot(Vec::new()), None);
}
