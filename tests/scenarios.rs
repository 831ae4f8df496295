use prefect::dispatch::run_ready_jobs;
use prefect::{ClaimedJob, Dispatcher, JobState, JobStore, NewJob, Retries};

const WORKER: u64 = 1;
const START: i64 = 1_700_000_000_000;

fn job(job_type: &str, payload: &str) -> NewJob {
    NewJob {
        job_type: job_type.to_string(),
        payload: payload.as_bytes().to_vec(),
        ..Default::default()
    }
}

fn types(names: &[&str]) -> Vec<String> {
    names.iter().map(|s| s.to_string()).collect()
}

fn status(store: &JobStore, id: u64) -> prefect::JobStatus {
    let ext = store.job(id).expect("job exists").external_id;
    store.job_status(ext).expect("status")
}

#[test]
fn priority_beats_earlier_run_at() {
    let mut store = JobStore::new();
    let now = START;
    let low = store.add_jobs_with_ids(
        vec![NewJob { priority: 1, run_at: Some(now - 10_000), ..job("push_payload", "low") }],
        &vec![11],
        now,
    )[0];
    let high = store.add_jobs_with_ids(
        vec![NewJob { priority: 2, run_at: Some(now - 5_000), ..job("push_payload", "high") }],
        &vec![12],
        now,
    )[0];
    let (min, max) = prefect::dispatch::resolve_concurrency(None, Some(1), &vec![1]);
    let mut worker = Dispatcher::new(min, max);
    let t = types(&["push_payload"]);
    let mut pushed: Vec<String> = Vec::new();
    let mut clock = now;
    loop {
        let claimed = run_ready_jobs(&mut store, &mut worker, WORKER, &t, clock);
        if claimed.is_empty() {
            break;
        }
        assert_eq!(claimed.len(), 1);
        let c = &claimed[0];
        pushed.push(String::from_utf8(c.payload.clone()).unwrap());
        store.complete(c.job_id, WORKER, "null".to_string(), clock + 1).unwrap();
        worker.job_finished(c.weight);
        clock += 10;
    }
    assert_eq!(pushed, vec!["high", "low"]);
    let sh = status(&store, high);
    let sl = status(&store, low);
    assert!(sh.started_at.unwrap() <= sl.started_at.unwrap());
    assert_eq!(sh.state, JobState::Succeeded);
    assert_eq!(sl.state, JobState::Succeeded);
}

/// Runs a job of type "retry" whose try `k` fails while `k < succeed_on`, advancing the
/// clock to each retry. Returns the job's id.
fn run_retry_job(store: &mut JobStore, succeed_on: u64, draw: u32) -> u64 {
    let mut now = START;
    let id = store.add_jobs_with_ids(
        vec![NewJob {
            retries: Retries { max_retries: 2, ..Default::default() },
            ..job("retry", "")
        }],
        &vec![7],
        now,
    )[0];
    let t = types(&["retry"]);
    let mut worker = Dispatcher::new(1, 1);
    for _ in 0..10 {
        let claimed = run_ready_jobs(store, &mut worker, WORKER, &t, now);
        if claimed.is_empty() {
            break;
        }
        let c = &claimed[0];
        worker.job_finished(c.weight);
        if c.current_try < succeed_on {
            let info = format!("\"fail on try {}\"", c.current_try);
            match store.fail(c.job_id, WORKER, info, now + 1, draw).unwrap() {
                Some(run_at) => now = run_at,
                None => break,
            }
        } else {
            let info = format!("\"success on try {}\"", c.current_try);
            store.complete(c.job_id, WORKER, info, now + 1).unwrap();
            break;
        }
    }
    id
}

#[test]
fn success_after_two_failures() {
    let mut store = JobStore::new();
    let id = run_retry_job(&mut store, 2, 0);
    let st = status(&store, id);
    assert_eq!(st.state, JobState::Succeeded);
    assert_eq!(st.run_info.len(), 3);
    let success: Vec<bool> = st.run_info.iter().map(|r| r.success).collect();
    assert_eq!(success, vec![false, false, true]);
    assert_eq!(st.run_info[0].info, "\"fail on try 0\"");
    assert_eq!(st.run_info[1].info, "\"fail on try 1\"");
    assert_eq!(st.run_info[2].info, "\"success on try 2\"");
    assert_eq!(st.current_try as usize, st.run_info.len());
    assert!(st.run_info[1].start - st.run_info[0].start >= 20_000);
    assert!(st.run_info[2].start - st.run_info[1].start >= 40_000);
}

#[test]
fn retry_waits_stay_within_randomization() {
    let mut store = JobStore::new();
    let id = run_retry_job(&mut store, 2, 1000);
    let st = status(&store, id);
    let first = st.run_info[1].start - st.run_info[0].start;
    let second = st.run_info[2].start - st.run_info[1].start;
    // Each try ends 1 ms after it starts; the wait after it is 20 s, then 40 s, plus 20%.
    assert_eq!(first, 1 + 24_000);
    assert_eq!(second, 1 + 48_000);
}

#[test]
fn retries_run_out() {
    let mut store = JobStore::new();
    let id = run_retry_job(&mut store, 3, 500);
    let st = status(&store, id);
    assert_eq!(st.state, JobState::Failed);
    assert_eq!(st.run_info.len(), 3);
    assert!(st.run_info.iter().all(|r| !r.success));
    assert_eq!(st.run_info[0].info, "\"fail on try 0\"");
    assert_eq!(st.run_info[1].info, "\"fail on try 1\"");
    assert_eq!(st.run_info[2].info, "\"fail on try 2\"");
    assert_eq!(st.current_try, 3);
}

#[test]
fn expired_tries_fail_the_job() {
    let mut store = JobStore::new();
    let mut now = START;
    let id = store.add_jobs_with_ids(
        vec![NewJob {
            timeout: 5_000,
            retries: Retries { max_retries: 2, ..Default::default() },
            ..job("sleep", "10000")
        }],
        &vec![3],
        now,
    )[0];
    let t = types(&["sleep"]);
    let mut worker = Dispatcher::new(1, 1);
    for _ in 0..3 {
        let claimed = run_ready_jobs(&mut store, &mut worker, WORKER, &t, now);
        assert_eq!(claimed.len(), 1);
        assert_eq!(claimed[0].expires_at, now + 5_000);
        // The sleep outlasts the timeout: at the expiry nothing has happened yet.
        let draws = vec![0; store.len()];
        assert!(store.expire_jobs(claimed[0].expires_at, &draws).is_empty());
        assert_eq!(store.next_expiry(), Some(claimed[0].expires_at));
        now = claimed[0].expires_at + 1;
        assert_eq!(store.expire_jobs(now, &draws), vec![id]);
        assert_eq!(store.next_expiry(), None);
        worker.job_finished(claimed[0].weight);
        // The late report of the sleeping try is ignored.
        assert!(store.complete(id, WORKER, "null".to_string(), now + 1).is_err());
        if let Some(next) = store.next_run_at(&t, now) {
            now = next;
        }
    }
    let st = status(&store, id);
    assert_eq!(st.state, JobState::Failed);
    assert_eq!(st.run_info.len(), 3);
    for r in &st.run_info {
        assert!(!r.success);
        assert_eq!(r.info, "\"Job expired\"");
    }
}

/// Runs every job of `store` on one worker in simulated time, each job taking the number of
/// milliseconds in its payload. Returns the start time of each job by id and the most jobs
/// seen running at once. With `close_at`, the worker shuts down at that instant.
fn simulate(
    store: &mut JobStore,
    worker: &mut Dispatcher,
    t: &Vec<String>,
    close_at: Option<i64>,
) -> (Vec<(u64, i64)>, usize) {
    let mut now = START;
    let mut running: Vec<(i64, ClaimedJob)> = Vec::new();
    let mut starts = Vec::new();
    let mut peak = 0;
    loop {
        if let Some(c) = close_at {
            if now >= c && !worker.closing() {
                worker.shut_down();
            }
        }
        let claimed = if worker.claim_budget().is_some() {
            run_ready_jobs(store, worker, WORKER, t, now)
        } else {
            Vec::new()
        };
        for c in claimed {
            let ms: i64 = String::from_utf8(c.payload.clone()).unwrap().parse().unwrap();
            starts.push((c.job_id, now));
            running.push((now + ms, c));
        }
        peak = peak.max(running.len());
        if running.is_empty() {
            break;
        }
        running.sort_by_key(|(end, _)| *end);
        let next_end = running[0].0;
        if let Some(c) = close_at {
            if !worker.closing() && c < next_end {
                now = c;
                continue;
            }
        }
        let (end, c) = running.remove(0);
        now = end;
        store.complete(c.job_id, WORKER, format!("{}", now - START), now).unwrap();
        worker.job_finished(c.weight);
    }
    (starts, peak)
}

#[test]
fn weights_limit_concurrency() {
    let mut store = JobStore::new();
    let jobs: Vec<NewJob> = (0..10).map(|_| NewJob { weight: 3, ..job("max_count", "50") }).collect();
    let ids = store.add_jobs_with_ids(jobs, &(0..10).collect(), START);
    let mut worker = Dispatcher::new(5, 10);
    let (starts, peak) = simulate(&mut store, &mut worker, &types(&["max_count"]), None);
    // Three jobs of weight 3 at a time: 9 of the 10 budget.
    assert_eq!(peak, 3);
    assert_eq!(starts.len(), 10);
    for id in ids {
        assert_eq!(status(&store, id).state, JobState::Succeeded);
    }
    let max_at_once = starts.iter().filter(|(_, s)| *s == START).count();
    assert_eq!(max_at_once, 3);
}

#[test]
fn refill_happens_below_min_concurrency() {
    let mut store = JobStore::new();
    let jobs: Vec<NewJob> = (1..=20)
        .map(|i| NewJob { timeout: 20 * 60 * 1000, ..job("ms_job", &format!("{}", i * 100)) })
        .collect();
    store.add_jobs_with_ids(jobs, &(0..20).collect(), START);
    let mut worker = Dispatcher::new(6, 10);
    let (starts, peak) = simulate(&mut store, &mut worker, &types(&["ms_job"]), None);
    assert_eq!(peak, 10);
    let times: Vec<i64> = starts.iter().map(|(_, s)| s - START).collect();
    assert_eq!(times.len(), 20);
    for i in 1..10 {
        assert!(times[i] - times[0] <= 1);
    }
    assert!(times[10] - times[0] >= 300);
    for i in 11..15 {
        assert!(times[i] - times[10] <= 1);
    }
    assert!(times[15] - times[10] >= 300);
    for i in 16..20 {
        assert!(times[i] - times[15] <= 1);
    }
    assert_eq!(times[10], 500);
    assert_eq!(times[15], 1000);
}

#[test]
fn shutdown_drains_running_jobs() {
    let mut store = JobStore::new();
    let jobs: Vec<NewJob> = (0..20)
        .map(|i| NewJob {
            timeout: 5_000,
            retries: Retries { max_retries: 2, ..Default::default() },
            ..job("sleep", &format!("{}", i * 75))
        })
        .collect();
    let ids = store.add_jobs_with_ids(jobs, &(0..20).collect(), START);
    let mut worker = Dispatcher::new(7, 10);
    simulate(&mut store, &mut worker, &types(&["sleep"]), Some(START + 250));
    assert!(worker.drained());
    let mut succeeded = 0;
    let mut pending = 0;
    for id in ids {
        match status(&store, id).state {
            JobState::Succeeded => succeeded += 1,
            JobState::Pending => pending += 1,
            other => panic!("unexpected state {:?}", other),
        }
    }
    assert!(succeeded > 0);
    assert!(pending > 0);
}

#[test]
fn jobs_submitted_before_a_worker_are_picked_up() {
    let mut store = JobStore::new();
    let id = store.add_jobs_with_ids(vec![job("counter", "")], &vec![1], START)[0];
    let mut workers = prefect::WorkerList::new();
    assert!(workers.workers_to_wake(&store, START).is_empty());
    let w = workers.add_worker(types(&["counter"]));
    assert_eq!(workers.workers_to_wake(&store, START), vec![w]);
    let mut d = Dispatcher::new(1, 1);
    let claimed = run_ready_jobs(&mut store, &mut d, w, &types(&["counter"]), START);
    assert_eq!(claimed.len(), 1);
    assert_eq!(claimed[0].job_id, id);
}
