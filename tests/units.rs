use prefect::dispatch::{
    autoheartbeat_delay, report_for, resolve_concurrency, run_ready_jobs, JobOutcome, Report,
};
use prefect::job::add_duration;
use prefect::retry::{backoff_base_ms, retry_delay_ms, MAX_BACKOFF_MS};
use prefect::sources::{draw_from_bits, nanos_to_millis, new_external_id, random_draw};
use prefect::{
    Clock, Dispatcher, Error, JobDef, JobRegistry, JobState, JobStore, NewJob, Retries,
    WorkerList,
};

const NOW: i64 = 1_700_000_000_000;

fn job(job_type: &str) -> NewJob {
    NewJob { job_type: job_type.to_string(), ..Default::default() }
}

fn types(names: &[&str]) -> Vec<String> {
    names.iter().map(|s| s.to_string()).collect()
}

fn running_store(new_job: NewJob) -> (JobStore, u64) {
    let mut store = JobStore::new();
    let id = store.add_jobs_with_ids(vec![new_job], &vec![99], NOW)[0];
    let claimed = store.claim_jobs(5, &types(&["t"]), NOW, 10);
    assert_eq!(claimed.len(), 1);
    (store, id)
}

#[test]
fn default_retries() {
    let r = Retries::default();
    assert_eq!(r.max_retries, 3);
    assert_eq!(r.backoff_initial_interval, 20_000);
    assert_eq!(r.backoff_multiplier, 2000);
    assert_eq!(r.backoff_randomization, 200);
}

#[test]
fn default_new_job() {
    let j = NewJob::default();
    assert_eq!(j.priority, 0);
    assert_eq!(j.weight, 1);
    assert!(j.run_at.is_none());
    assert!(j.payload.is_empty());
    assert_eq!(j.timeout, 300_000);
    assert_eq!(j.heartbeat_increment, 120_000);
}

#[test]
fn backoff_doubles() {
    let r = Retries::default();
    assert_eq!(backoff_base_ms(&r, 0), 20_000);
    assert_eq!(backoff_base_ms(&r, 1), 40_000);
    assert_eq!(backoff_base_ms(&r, 3), 160_000);
}

#[test]
fn backoff_fractional_multiplier_rounds_down() {
    let r = Retries { backoff_initial_interval: 3, backoff_multiplier: 1500, ..Default::default() };
    assert_eq!(backoff_base_ms(&r, 1), 4);
    assert_eq!(backoff_base_ms(&r, 2), 6);
}

#[test]
fn backoff_is_capped() {
    let r = Retries { backoff_initial_interval: u64::MAX, ..Default::default() };
    assert_eq!(backoff_base_ms(&r, 0), u64::MAX as u128);
    assert_eq!(backoff_base_ms(&r, 5), MAX_BACKOFF_MS);
    // Far below the cut, the base is exact: 2^40 ms doubled is 2^41 ms.
    let big = Retries { backoff_initial_interval: 1 << 40, ..Default::default() };
    assert_eq!(backoff_base_ms(&big, 1), 1u128 << 41);
    assert_eq!(retry_delay_ms(&big, 1, 0), 1u128 << 41);
}

#[test]
fn retry_delay_randomization() {
    let r = Retries::default();
    assert_eq!(retry_delay_ms(&r, 0, 0), 20_000);
    assert_eq!(retry_delay_ms(&r, 0, 1000), 24_000);
    assert_eq!(retry_delay_ms(&r, 1, 500), 44_000);
    let wide = Retries { backoff_randomization: 5000, ..Default::default() };
    assert_eq!(retry_delay_ms(&wide, 0, 1000), 40_000);
}

#[test]
fn delay_of_checkpoint_job_settings() {
    let r = Retries { max_retries: 3, backoff_multiplier: 1000, backoff_initial_interval: 1, ..Default::default() };
    assert_eq!(retry_delay_ms(&r, 2, 0), 1);
}

#[test]
fn nanos_round_toward_the_past() {
    assert_eq!(nanos_to_millis(0), 0);
    assert_eq!(nanos_to_millis(1_999_999), 1);
    assert_eq!(nanos_to_millis(-1), -1);
    assert_eq!(nanos_to_millis(-1_000_000), -1);
    assert_eq!(nanos_to_millis(-1_000_001), -2);
    assert_eq!(nanos_to_millis(i128::MAX), i64::MAX);
    assert_eq!(nanos_to_millis(i128::MIN), i64::MIN);
}

#[test]
fn clocks() {
    let mut c = Clock::Manual(10);
    assert_eq!(c.now(), 10);
    c.advance(5);
    assert_eq!(c.now(), 15);
    c.advance(u64::MAX);
    assert_eq!(c.now(), i64::MAX);
    let sys = Clock::System;
    // After 2020-01-01.
    assert!(sys.now() > 1_577_836_800_000);
}

#[test]
fn random_values() {
    for _ in 0..50 {
        assert!(random_draw() <= 1000);
    }
    assert_eq!(draw_from_bits(0), 0);
    assert_eq!(draw_from_bits(1001 + 7), 7);
    assert_eq!(draw_from_bits(1u128 << 48), 0);
    let a = new_external_id();
    let b = new_external_id();
    assert_ne!(a, b);
    assert_eq!((a >> 76) & 0xf, 4);
    assert_eq!((a >> 62) & 0x3, 2);
}

#[test]
fn durations_saturate() {
    assert_eq!(add_duration(5, 7), 12);
    assert_eq!(add_duration(-10, 3), -7);
    assert_eq!(add_duration(i64::MAX - 1, 10), i64::MAX);
}

#[test]
fn submitted_jobs_get_consecutive_ids() {
    let mut store = JobStore::new();
    let ids = store.add_jobs_with_ids(vec![job("a"), job("b")], &vec![100, 200], NOW);
    assert_eq!(ids, vec![1, 2]);
    assert_eq!(store.len(), 2);
    let row = store.row(1);
    assert_eq!(row.external_id, 200);
    assert_eq!(row.job_type, "b");
    assert_eq!(row.run_at, NOW);
    assert_eq!(row.orig_run_at, NOW);
    assert_eq!(row.state, JobState::Pending);
    assert_eq!(store.ids_left(), u64::MAX - 3);
    assert_eq!(store.job(2).map(|r| r.external_id), Some(200));
    assert!(store.job(3).is_none());
    let more = store.add_jobs(vec![job("c")], NOW);
    assert_eq!(more, vec![3]);
    assert_eq!(store.row(2).job_type, "c");
}

#[test]
fn claim_order_priority_run_at_id() {
    let mut store = JobStore::new();
    store.add_jobs_with_ids(
        vec![
            NewJob { priority: 0, run_at: Some(NOW - 5), ..job("t") },
            NewJob { priority: 0, run_at: Some(NOW - 9), ..job("t") },
            NewJob { priority: 3, run_at: Some(NOW), ..job("t") },
            NewJob { priority: 0, run_at: Some(NOW - 9), ..job("t") },
        ],
        &vec![1, 2, 3, 4],
        NOW,
    );
    let claimed = store.claim_jobs(8, &types(&["t"]), NOW, 10);
    let order: Vec<u64> = claimed.iter().map(|c| c.job_id).collect();
    assert_eq!(order, vec![3, 2, 4, 1]);
    for c in &claimed {
        assert_eq!(c.started_at, NOW);
        assert_eq!(c.expires_at, NOW + 300_000);
        assert_eq!(store.row((c.job_id - 1) as usize).worker_id, Some(8));
        assert_eq!(store.row((c.job_id - 1) as usize).state, JobState::Running);
    }
}

#[test]
fn claim_stops_at_first_overflow() {
    let mut store = JobStore::new();
    store.add_jobs_with_ids(
        vec![
            NewJob { priority: 3, weight: 2, ..job("t") },
            NewJob { priority: 2, weight: 2, ..job("t") },
            NewJob { priority: 1, weight: 1, ..job("t") },
        ],
        &vec![1, 2, 3],
        NOW,
    );
    let claimed = store.claim_jobs(8, &types(&["t"]), NOW, 3);
    let order: Vec<u64> = claimed.iter().map(|c| c.job_id).collect();
    assert_eq!(order, vec![1]);
    assert_eq!(store.row(2).state, JobState::Pending);
}

#[test]
fn overweight_job_starves() {
    let mut store = JobStore::new();
    store.add_jobs_with_ids(vec![NewJob { weight: 11, ..job("t") }], &vec![1], NOW);
    let mut d = Dispatcher::new(5, 10);
    assert!(run_ready_jobs(&mut store, &mut d, 1, &types(&["t"]), NOW).is_empty());
    assert_eq!(store.row(0).state, JobState::Pending);
    assert_eq!(d.running(), 0);
}

#[test]
fn claim_skips_other_types_and_future_jobs() {
    let mut store = JobStore::new();
    store.add_jobs_with_ids(
        vec![
            job("sleep"),
            NewJob { run_at: Some(NOW + 1), ..job("t") },
            NewJob { run_at: Some(NOW - 1_000_000_000), ..job("t") },
        ],
        &vec![1, 2, 3],
        NOW,
    );
    let claimed = store.claim_jobs(8, &types(&["t", "u"]), NOW, 10);
    assert_eq!(claimed.len(), 1);
    assert_eq!(claimed[0].job_id, 3);
    assert!(store.has_ready_job(&types(&["sleep"]), NOW));
    assert!(!store.has_ready_job(&types(&["t"]), NOW));
    assert_eq!(store.next_run_at(&types(&["t"]), NOW), Some(NOW + 1));
    assert_eq!(store.next_run_at(&types(&["sleep"]), NOW), None);
}

#[test]
fn heartbeat_extends_expiry() {
    let (mut store, id) = running_store(NewJob { timeout: 1_000, heartbeat_increment: 5_000, ..job("t") });
    assert_eq!(store.heartbeat(id, 5, NOW + 100), Ok(NOW + 5_100));
    // A heartbeat never brings the expiry forward.
    assert_eq!(store.heartbeat(id, 5, NOW), Ok(NOW + 5_100));
    assert_eq!(store.row(0).expires_at, Some(NOW + 5_100));
    assert_eq!(store.heartbeat(id, 6, NOW), Err(Error::WorkerMismatch));
    assert_eq!(store.heartbeat(77, 5, NOW), Err(Error::JobNotFound));
}

#[test]
fn checkpoint_then_retry_sees_checkpoint() {
    let (mut store, id) = running_store(NewJob {
        payload: b"initial".to_vec(),
        retries: Retries { backoff_initial_interval: 1, backoff_multiplier: 1000, ..Default::default() },
        ..job("t")
    });
    // The claim set the expiry 300 s out; a checkpoint only moves it later.
    assert_eq!(store.checkpoint(id, 5, b"first".to_vec(), NOW + 10), Ok(NOW + 300_000));
    assert_eq!(store.fail(id, 5, "\"fail 1\"".to_string(), NOW + 20, 0), Ok(Some(NOW + 21)));
    let claimed = store.claim_jobs(5, &types(&["t"]), NOW + 21, 10);
    assert_eq!(claimed.len(), 1);
    assert_eq!(claimed[0].payload, b"first".to_vec());
    assert_eq!(claimed[0].current_try, 1);
    assert_eq!(store.checkpoint(id, 9, b"x".to_vec(), NOW), Err(Error::WorkerMismatch));
}

#[test]
fn second_complete_is_rejected() {
    let (mut store, id) = running_store(job("t"));
    assert_eq!(store.complete(id, 5, "\"done\"".to_string(), NOW + 3), Ok(()));
    assert_eq!(store.complete(id, 5, "\"again\"".to_string(), NOW + 4), Err(Error::WorkerMismatch));
    let row = store.row(0);
    assert_eq!(row.state, JobState::Succeeded);
    assert_eq!(row.worker_id, None);
    assert_eq!(row.current_try, 1);
    assert_eq!(row.run_info.len(), 1);
    assert_eq!(row.run_info[0].info, "\"done\"");
    assert_eq!(row.run_info[0].start, NOW);
    assert_eq!(row.run_info[0].end, NOW + 3);
    assert_eq!(store.complete(42, 5, "x".to_string(), NOW), Err(Error::JobNotFound));
}

#[test]
fn no_retries_first_failure_is_final() {
    let (mut store, id) = running_store(NewJob {
        retries: Retries { max_retries: 0, ..Default::default() },
        ..job("t")
    });
    assert_eq!(store.fail(id, 5, "\"boom\"".to_string(), NOW + 1, 0), Ok(None));
    let row = store.row(0);
    assert_eq!(row.state, JobState::Failed);
    assert_eq!(row.worker_id, None);
    assert_eq!(row.current_try, 1);
    assert_eq!(store.fail(id, 5, "x".to_string(), NOW + 2, 0), Err(Error::WorkerMismatch));
    assert_eq!(store.fail(3, 5, "x".to_string(), NOW + 2, 0), Err(Error::JobNotFound));
}

#[test]
fn retry_is_scheduled_after_backoff() {
    let (mut store, id) = running_store(job("t"));
    assert_eq!(store.fail(id, 5, "\"e\"".to_string(), NOW + 1, 1000), Ok(Some(NOW + 1 + 24_000)));
    let row = store.row(0);
    assert_eq!(row.state, JobState::Pending);
    assert_eq!(row.started_at, None);
    assert_eq!(row.expires_at, None);
    assert_eq!(row.current_try, 1);
    assert_eq!(row.orig_run_at, NOW);
}

#[test]
fn status_lookup() {
    let (store, _) = running_store(job("t"));
    let st = store.job_status(99).expect("status");
    assert_eq!(st.id, 99);
    assert_eq!(st.job_type, "t");
    assert_eq!(st.state, JobState::Running);
    assert_eq!(st.started_at, Some(NOW));
    assert!(store.job_status(98).is_none());
}

#[test]
fn expiry_only_touches_late_jobs() {
    let (mut store, id) = running_store(NewJob { timeout: 100, ..job("t") });
    assert!(store.sweep_expired(NOW + 100).is_empty());
    assert_eq!(store.expire_jobs(NOW + 101, &vec![0]), vec![id]);
    let row = store.row(0);
    assert_eq!(row.state, JobState::Pending);
    assert_eq!(row.run_info[0].info, "\"Job expired\"");
    assert_eq!(row.run_at, NOW + 101 + 20_000);
}

#[test]
fn concurrency_defaults() {
    assert_eq!(resolve_concurrency(None, None, &vec![]), (1, 1));
    assert_eq!(resolve_concurrency(None, None, &vec![1, 4, 2]), (2, 4));
    assert_eq!(resolve_concurrency(None, Some(10), &vec![1]), (5, 10));
    assert_eq!(resolve_concurrency(None, Some(2), &vec![3]), (1, 3));
    assert_eq!(resolve_concurrency(Some(6), Some(10), &vec![1]), (6, 10));
    assert_eq!(resolve_concurrency(Some(0), Some(10), &vec![1]), (1, 10));
}

#[test]
fn claim_round_ignores_the_minimum() {
    let mut store = JobStore::new();
    store.add_jobs_with_ids(vec![job("t"), job("t"), job("t")], &vec![1, 2, 3], NOW);
    let mut d = Dispatcher::new(1, 3);
    d.jobs_started(&vec![1]);
    // At the minimum the loop would not claim, but a claim round still fills the free weight.
    assert_eq!(d.claim_budget(), None);
    assert_eq!(d.free(), 2);
    let claimed = run_ready_jobs(&mut store, &mut d, 1, &types(&["t"]), NOW);
    assert_eq!(claimed.len(), 2);
    assert_eq!(d.running(), 3);
}

#[test]
fn dispatcher_budget_and_signals() {
    let mut d = Dispatcher::new(6, 10);
    assert_eq!(d.claim_budget(), Some(10));
    assert!(d.wait_for().ready_signal);
    d.jobs_started(&vec![3, 3]);
    assert_eq!(d.running(), 6);
    assert_eq!(d.claim_budget(), None);
    assert!(!d.wait_for().ready_signal);
    assert!(d.wait_for().finished_signal);
    d.job_finished(3);
    assert_eq!(d.claim_budget(), Some(7));
    d.shut_down();
    assert_eq!(d.claim_budget(), None);
    assert!(!d.drained());
    d.job_finished(3);
    assert!(d.drained());
    assert_eq!(d.min_concurrency(), 6);
    assert_eq!(d.max_concurrency(), 10);
}

#[test]
fn autoheartbeat_timing() {
    assert_eq!(autoheartbeat_delay(10_000, 4_000, 0), 8_000);
    assert_eq!(autoheartbeat_delay(100_000, 120_000, 0), 85_000);
    assert_eq!(autoheartbeat_delay(10_000, 4_000, 9_000), 0);
}

#[test]
fn runner_reports() {
    assert!(matches!(report_for(true, JobOutcome::Returned("1".to_string())), Report::Nothing));
    assert!(matches!(report_for(false, JobOutcome::Returned("1".to_string())), Report::Complete(s) if s == "1"));
    assert!(matches!(report_for(false, JobOutcome::Errored("e".to_string())), Report::Fail(s) if s == "e"));
    assert!(matches!(report_for(false, JobOutcome::Panicked("p".to_string())), Report::Fail(s) if s == "p"));
    assert!(matches!(report_for(true, JobOutcome::Panicked("p".to_string())), Report::Nothing));
}

#[test]
fn create_job_from_fn() {
    let def = JobDef::new("test".to_string(), false);
    assert_eq!(def.name, "test");
    assert_eq!(def.weight, 1);
}

#[test]
fn slice_of_objects() {
    let job = JobDef::new("test".to_string(), false);
    let registry = JobRegistry::new([job].to_vec());
    assert!(registry.contains(&"test".to_string()));
}

#[test]
fn vec_of_objects() {
    let job = JobDef::new("test".to_string(), false);
    let registry = JobRegistry::new(vec![job]);
    assert_eq!(registry.names(), vec!["test".to_string()]);
}

#[test]
fn disallow_adding_same_job_type_twice() {
    let job = JobDef::builder("counter".to_string()).build();
    let registry = JobRegistry::new(vec![job.clone()]);
    // A type of that name is registered, so adding it again is refused by `add`'s contract.
    assert!(registry.contains(&job.name));
    assert_eq!(registry.names().len(), 1);
}

#[test]
fn registry_lookups() {
    let a = JobDef::builder("a".to_string()).weight(3).autoheartbeat(true).build();
    let a2 = JobDef::builder("a".to_string()).weight(4).build();
    let b = JobDef::new("b".to_string(), false);
    let mut registry = JobRegistry::new(vec![a, a2]);
    assert_eq!(registry.weight_of(&"a".to_string()), 4);
    assert!(!registry.autoheartbeat_of(&"a".to_string()));
    assert!(!registry.contains(&b.name));
    registry.add(b);
    assert!(registry.contains(&"b".to_string()));
    assert_eq!(registry.weight_of(&"zzz".to_string()), 1);
    let mut names = registry.names();
    names.sort();
    assert_eq!(names, vec!["a".to_string(), "b".to_string()]);
    assert!(!registry.contains(&"nope".to_string()));
    assert_eq!(registry.worker_job_types(&types(&["b", "a"])), types(&["b", "a"]));
    assert_eq!(registry.worker_job_types(&vec![]).len(), 2);
    assert_eq!(registry.weights_of(&types(&["a", "b", "c"])), vec![4, 1, 1]);
}

#[test]
fn worker_list() {
    let mut store = JobStore::new();
    store.add_jobs_with_ids(
        vec![job("a"), NewJob { run_at: Some(NOW + 50), ..job("b") }, NewJob { run_at: Some(NOW + 20), ..job("c") }],
        &vec![1, 2, 3],
        NOW,
    );
    let mut workers = WorkerList::new();
    assert!(workers.has_room());
    let w1 = workers.add_worker(types(&["a", "b"]));
    let w2 = workers.add_worker(types(&["b"]));
    assert_eq!((w1, w2), (1, 2));
    assert_eq!(workers.len(), 2);
    assert_eq!(workers.workers_to_wake(&store, NOW), vec![w1]);
    assert_eq!(workers.next_wakeup(&store, NOW), Some(NOW + 50));
    let w3 = workers.add_worker(types(&["c"]));
    assert_eq!(workers.next_wakeup(&store, NOW), Some(NOW + 20));
    assert!(workers.remove_worker(w3));
    assert!(!workers.remove_worker(w3));
    assert_eq!(workers.len(), 2);
    assert_eq!(workers.next_wakeup(&store, NOW + 50), None);
}

#[test]
fn restore_checks_the_rows() {
    let (mut store, id) = running_store(job("t"));
    store.complete(id, 5, "1".to_string(), NOW + 1).unwrap();
    let rows: Vec<prefect::JobRow> = (0..store.len()).map(|i| store.row(i).clone()).collect();
    let mut restored = JobStore::restore(rows.clone()).expect("consistent rows");
    assert_eq!(restored.len(), 1);
    assert_eq!(restored.ids_left(), u64::MAX - 2);
    assert_eq!(restored.add_jobs_with_ids(vec![job("t")], &vec![1], NOW), vec![2]);
    let mut broken = rows.clone();
    broken[0].current_try = 0;
    assert!(JobStore::restore(broken).is_none());
    let mut twice = rows.clone();
    twice.push(rows[0].clone());
    assert!(JobStore::restore(twice).is_none());
    let mut running_without_worker = rows;
    running_without_worker[0].state = JobState::Running;
    assert!(JobStore::restore(running_without_worker).is_none());
}

#[test]
fn late_retry_after_a_long_backoff() {
    // A 2^40 ms initial wait doubled on the second try still fits the i64 instants.
    let (mut store, id) = running_store(NewJob {
        retries: Retries { max_retries: 2, backoff_initial_interval: 1 << 40, backoff_randomization: 0, ..Default::default() },
        ..job("t")
    });
    assert_eq!(store.fail(id, 5, "\"a\"".to_string(), NOW, 0), Ok(Some(NOW + (1 << 40))));
    let claimed = store.claim_jobs(5, &types(&["t"]), NOW + (1 << 40), 10);
    assert_eq!(claimed.len(), 1);
    assert_eq!(store.fail(id, 5, "\"b\"".to_string(), NOW + (1 << 40), 0), Ok(Some(NOW + (1 << 40) + (1 << 41))));
}

#[test]
fn huge_backoff_saturates_the_instant() {
    let (mut store, id) = running_store(NewJob {
        retries: Retries { backoff_initial_interval: u64::MAX, ..Default::default() },
        ..job("t")
    });
    assert_eq!(store.fail(id, 5, "\"a\"".to_string(), NOW, 0), Ok(Some(i64::MAX)));
}
