//! Jobs as the store keeps them, and the shape of a submission.
use vstd::prelude::*;
use crate::retry::{Retries, backoff_delay, default_retries};

verus! {

/// Where a job is in its life.
#[derive(Clone, Copy, Debug, PartialEq, Eq, Structural)]
pub enum JobState {
    /// Waiting for its `run_at` instant and a worker.
    Pending,
    /// Claimed by a worker, which is running it.
    Running,
    /// Finished successfully.
    Succeeded,
    /// Failed on its last allowed try.
    Failed,
}

/// One attempt at running a job.
#[derive(Clone, Debug)]
pub struct RunInfo {
    /// When the attempt started, in milliseconds since the Unix epoch.
    pub start: i64,
    /// When it ended.
    pub end: i64,
    /// Whether it succeeded.
    pub success: bool,
    /// The JSON-encoded value that the attempt reported.
    pub info: String,
}

/// What a `RunInfo` means.
pub struct RunRecord {
    pub start: i64,
    pub end: i64,
    pub success: bool,
    pub info: Seq<char>,
}

impl View for RunInfo {
    type V = RunRecord;

    open spec fn view(&self) -> RunRecord {
        RunRecord { start: self.start, end: self.end, success: self.success, info: self.info@ }
    }
}

pub open spec fn run_records(v: Seq<RunInfo>) -> Seq<RunRecord> {
    v.map_values(|r: RunInfo| r@)
}

/// A job to be submitted to the queue. Durations are in milliseconds, instants in
/// milliseconds since the Unix epoch.
#[derive(Clone, Debug)]
pub struct NewJob {
    /// The name of the job type, which picks the function that runs it.
    pub job_type: String,
    /// Jobs with higher `priority` run first.
    pub priority: i32,
    /// How much of a worker's concurrency the job takes while it runs (at least 1).
    pub weight: u32,
    /// When to run the job. `None` means right away.
    pub run_at: Option<i64>,
    /// The payload handed to the job when it runs.
    pub payload: Vec<u8>,
    /// Retry behavior when the job fails.
    pub retries: Retries,
    /// How long the job may run before it is considered failed.
    pub timeout: u64,
    /// How much a heartbeat extends the job's expiry.
    pub heartbeat_increment: u64,
}

impl Default for NewJob {
    /// Priority 0, weight 1, run now, empty payload, default retries, a timeout of five
    /// minutes and heartbeats of two minutes.
    fn default() -> (r: NewJob)
        ensures
            r.job_type@ == Seq::<char>::empty(),
            r.priority == 0,
            r.weight == 1,
            r.run_at is None,
            r.payload@ == Seq::<u8>::empty(),
            r.retries == default_retries(),
            r.timeout == 300_000,
            r.heartbeat_increment == 120_000,
    {
        NewJob {
            job_type: String::new(),
            priority: 0,
            weight: 1,
            run_at: None,
            payload: Vec::new(),
            retries: Retries::default(),
            timeout: 300_000,
            heartbeat_increment: 120_000,
        }
    }
}

/// A job as the store keeps it.
#[derive(Clone, Debug)]
pub struct JobRow {
    /// Internal identity, given in increasing order.
    pub job_id: u64,
    /// Opaque identity shown to callers.
    pub external_id: u128,
    pub job_type: String,
    pub priority: i32,
    pub weight: u32,
    /// The instant from which the job may be claimed.
    pub run_at: i64,
    /// The instant at which the job was first scheduled.
    pub orig_run_at: i64,
    pub payload: Vec<u8>,
    /// Replaces `payload` for later tries once the job has saved a checkpoint.
    pub checkpointed_payload: Option<Vec<u8>>,
    /// While the job is active, the index of its current or next try; once it is done, the
    /// number of tries made.
    pub current_try: u64,
    pub retries: Retries,
    pub timeout: u64,
    pub heartbeat_increment: u64,
    pub worker_id: Option<u64>,
    pub started_at: Option<i64>,
    pub expires_at: Option<i64>,
    pub state: JobState,
    pub run_info: Vec<RunInfo>,
}

/// What a `JobRow` means.
pub struct JobModel {
    pub job_id: u64,
    pub external_id: u128,
    pub job_type: Seq<char>,
    pub priority: i32,
    pub weight: u32,
    pub run_at: i64,
    pub orig_run_at: i64,
    pub payload: Seq<u8>,
    pub checkpointed_payload: Option<Seq<u8>>,
    pub current_try: u64,
    pub retries: Retries,
    pub timeout: u64,
    pub heartbeat_increment: u64,
    pub worker_id: Option<u64>,
    pub started_at: Option<i64>,
    pub expires_at: Option<i64>,
    pub state: JobState,
    pub run_info: Seq<RunRecord>,
}

impl View for JobRow {
    type V = JobModel;

    open spec fn view(&self) -> JobModel {
        JobModel {
            job_id: self.job_id,
            external_id: self.external_id,
            job_type: self.job_type@,
            priority: self.priority,
            weight: self.weight,
            run_at: self.run_at,
            orig_run_at: self.orig_run_at,
            payload: self.payload@,
            checkpointed_payload: match self.checkpointed_payload {
                Some(p) => Some(p@),
                None => None,
            },
            current_try: self.current_try,
            retries: self.retries,
            timeout: self.timeout,
            heartbeat_increment: self.heartbeat_increment,
            worker_id: self.worker_id,
            started_at: self.started_at,
            expires_at: self.expires_at,
            state: self.state,
            run_info: run_records(self.run_info@),
        }
    }
}

/// A job that a worker has just claimed, with what running it needs.
#[derive(Debug)]
pub struct ClaimedJob {
    pub job_id: u64,
    pub external_id: u128,
    pub job_type: String,
    pub priority: i32,
    pub weight: u32,
    /// The payload for this try: the last checkpoint, or the submitted payload.
    pub payload: Vec<u8>,
    pub current_try: u64,
    pub heartbeat_increment: u64,
    pub started_at: i64,
    pub expires_at: i64,
}

impl ClaimedJob {
    /// Whether this describes the Running job `j`.
    pub open spec fn describes(self, j: JobModel) -> bool {
        &&& self.job_id == j.job_id
        &&& self.external_id == j.external_id
        &&& self.job_type@ == j.job_type
        &&& self.priority == j.priority
        &&& self.weight == j.weight
        &&& self.payload@ == j.effective_payload()
        &&& self.current_try == j.current_try
        &&& self.heartbeat_increment == j.heartbeat_increment
        &&& j.started_at == Some(self.started_at)
        &&& j.expires_at == Some(self.expires_at)
    }
}

/// What the queue tells about a job.
#[derive(Debug)]
pub struct JobStatus {
    pub id: u128,
    pub job_type: String,
    pub state: JobState,
    pub orig_run_at: i64,
    pub run_at: i64,
    pub started_at: Option<i64>,
    pub current_try: u64,
    pub run_info: Vec<RunInfo>,
}

impl JobStatus {
    /// Whether this tells about job `j`.
    pub open spec fn describes(self, j: JobModel) -> bool {
        &&& self.id == j.external_id
        &&& self.job_type@ == j.job_type
        &&& self.state == j.state
        &&& self.orig_run_at == j.orig_run_at
        &&& self.run_at == j.run_at
        &&& self.started_at == j.started_at
        &&& self.current_try == j.current_try
        &&& run_records(self.run_info@) == j.run_info
    }
}

/// A copy of the attempt records `v`.
pub fn copy_run_info(v: &Vec<RunInfo>) -> (r: Vec<RunInfo>)
    ensures
        run_records(r@) == run_records(v@),
{
    let mut r: Vec<RunInfo> = Vec::new();
    let mut i: usize = 0;
    while i < v.len()
        invariant
            i <= v@.len(),
            run_records(r@) == run_records(v@.subrange(0, i as int)),
        decreases v@.len() - i,
    {
        let item = RunInfo {
            start: v[i].start,
            end: v[i].end,
            success: v[i].success,
            info: v[i].info.clone(),
        };
        proof {
            lemma_run_records_push(r@, item);
            assert(v@.subrange(0, i + 1) =~= v@.subrange(0, i as int).push(v@[i as int]));
            lemma_run_records_push(v@.subrange(0, i as int), v@[i as int]);
        }
        r.push(item);
        i += 1;
    }
    assert(v@.subrange(0, v@.len() as int) =~= v@);
    r
}

/// A copy of `b`.
pub fn copy_bytes(b: &Vec<u8>) -> (r: Vec<u8>)
    ensures
        r@ == b@,
{
    let mut r: Vec<u8> = Vec::with_capacity(b.len());
    let mut i: usize = 0;
    while i < b.len()
        invariant
            i <= b@.len(),
            r@ == b@.subrange(0, i as int),
        decreases b@.len() - i,
    {
        r.push(b[i]);
        i += 1;
        assert(r@ =~= b@.subrange(0, i as int));
    }
    assert(b@.subrange(0, b@.len() as int) =~= b@);
    r
}

/// The views of `v`.
pub open spec fn strings_view(v: Seq<String>) -> Seq<Seq<char>> {
    v.map_values(|s: String| s@)
}

/// Whether `types` holds `t`.
pub fn contains_str(types: &Vec<String>, t: &String) -> (r: bool)
    ensures
        r == strings_view(types@).contains(t@),
{
    let mut i: usize = 0;
    while i < types.len()
        invariant
            i <= types@.len(),
            forall|k: int| 0 <= k < i ==> (#[trigger] types@[k])@ != t@,
        decreases types@.len() - i,
    {
        if types[i] == *t {
            assert(strings_view(types@)[i as int] == t@);
            return true;
        }
        i += 1;
    }
    assert forall|k: int| 0 <= k < strings_view(types@).len() implies strings_view(types@)[k] != t@ by {
        assert(strings_view(types@)[k] == types@[k]@);
    }
    false
}

/// `t + d`, cut to the largest instant that an `i64` holds.
pub open spec fn later(t: i64, d: u64) -> i64 {
    later_by(t, d as int)
}

/// `t + d` for a wait `d >= 0`, cut to the largest instant that an `i64` holds.
pub open spec fn later_by(t: i64, d: int) -> i64 {
    if t + d > i64::MAX { i64::MAX } else { (t + d) as i64 }
}

/// `t + d` in milliseconds for a wait of at most 2^65 ms, cut to the largest instant.
pub fn add_wait(t: i64, d: u128) -> (r: i64)
    requires
        d <= 0x2_0000_0000_0000_0000u128,
    ensures
        r == later_by(t, d as int),
{
    let sum: i128 = t as i128 + d as i128;
    if sum > i64::MAX as i128 {
        i64::MAX
    } else {
        sum as i64
    }
}

/// `t + d` in milliseconds, cut to the largest instant.
pub fn add_duration(t: i64, d: u64) -> (r: i64)
    ensures
        r == later(t, d),
{
    let sum: i128 = t as i128 + d as i128;
    if sum > i64::MAX as i128 {
        i64::MAX
    } else {
        sum as i64
    }
}

/// The job that submitting `j` at `now` stores under ids `id` and `external_id`.
pub open spec fn new_row(j: NewJob, id: u64, external_id: u128, now: i64) -> JobModel {
    let run_at = match j.run_at {
        Some(t) => t,
        None => now,
    };
    JobModel {
        job_id: id,
        external_id,
        job_type: j.job_type@,
        priority: j.priority,
        weight: j.weight,
        run_at,
        orig_run_at: run_at,
        payload: j.payload@,
        checkpointed_payload: None,
        current_try: 0,
        retries: j.retries,
        timeout: j.timeout,
        heartbeat_increment: j.heartbeat_increment,
        worker_id: None,
        started_at: None,
        expires_at: None,
        state: JobState::Pending,
        run_info: Seq::empty(),
    }
}

impl JobModel {
    /// Whether the job is Pending or Running.
    pub open spec fn is_active(self) -> bool {
        self.state == JobState::Pending || self.state == JobState::Running
    }

    /// Whether the job is Running under worker `w`.
    pub open spec fn is_running_on(self, w: u64) -> bool {
        self.state == JobState::Running && self.worker_id == Some(w)
    }

    /// The payload that the next try sees: the last checkpoint, if any.
    pub open spec fn effective_payload(self) -> Seq<u8> {
        match self.checkpointed_payload {
            Some(p) => p,
            None => self.payload,
        }
    }

    /// The rules that every stored job keeps.
    pub open spec fn wf(self) -> bool {
        &&& self.weight >= 1
        &&& self.run_info.len() == self.current_try
        &&& self.current_try <= self.retries.max_retries + 1
        &&& (self.worker_id is Some <==> self.state == JobState::Running)
        &&& (self.state == JobState::Running ==> self.started_at is Some && self.expires_at is Some)
        &&& (self.state == JobState::Pending ==> self.started_at is None && self.expires_at is None)
        &&& (self.is_active() ==> self.current_try <= self.retries.max_retries)
        &&& (self.state == JobState::Succeeded ==> self.expires_at is None && self.current_try >= 1
            && self.run_info.last().success)
        &&& (self.state == JobState::Failed ==> self.expires_at is None && self.current_try
            == self.retries.max_retries + 1)
        &&& forall|i: int|
            0 <= i < self.run_info.len() && !(self.state == JobState::Succeeded && i
                == self.run_info.len() - 1) ==> !(#[trigger] self.run_info[i]).success
    }

    /// The job after worker `w` claimed it at `now`.
    pub open spec fn claimed(self, w: u64, now: i64) -> JobModel {
        JobModel {
            state: JobState::Running,
            worker_id: Some(w),
            started_at: Some(now),
            expires_at: Some(later(now, self.timeout)),
            ..self
        }
    }

    /// The expiry after a heartbeat at `now`: extended by the heartbeat increment, never
    /// brought forward.
    pub open spec fn extended_expiry(self, now: i64) -> i64 {
        let old_expiry = match self.expires_at {
            Some(e) => e,
            None => i64::MIN,
        };
        let new_expiry = later(now, self.heartbeat_increment);
        if new_expiry > old_expiry { new_expiry } else { old_expiry }
    }

    /// The job after a heartbeat at `now`.
    pub open spec fn heartbeat(self, now: i64) -> JobModel {
        JobModel { expires_at: Some(self.extended_expiry(now)), ..self }
    }

    /// The job after it saved `payload` as a checkpoint at `now`.
    pub open spec fn checkpoint(self, payload: Seq<u8>, now: i64) -> JobModel {
        JobModel {
            checkpointed_payload: Some(payload),
            expires_at: Some(self.extended_expiry(now)),
            ..self
        }
    }

    /// The record of the attempt that ends at `now`.
    pub open spec fn attempt(self, now: i64, success: bool, info: Seq<char>) -> RunRecord {
        RunRecord {
            start: match self.started_at {
                Some(s) => s,
                None => now,
            },
            end: now,
            success,
            info,
        }
    }

    /// The job after its current try succeeded at `now`.
    pub open spec fn completed(self, info: Seq<char>, now: i64) -> JobModel {
        JobModel {
            state: JobState::Succeeded,
            worker_id: None,
            expires_at: None,
            current_try: (self.current_try + 1) as u64,
            run_info: self.run_info.push(self.attempt(now, true, info)),
            ..self
        }
    }

    /// Whether a failure of the current try is the last one allowed.
    pub open spec fn fails_for_good(self) -> bool {
        self.current_try + 1 > self.retries.max_retries
    }

    /// The job after its current try failed at `now`: Failed if no retry is left, else
    /// Pending again, to run after the backoff delay picked by `draw`.
    pub open spec fn failed(self, info: Seq<char>, now: i64, draw: nat) -> JobModel {
        let tried = JobModel {
            worker_id: None,
            expires_at: None,
            current_try: (self.current_try + 1) as u64,
            run_info: self.run_info.push(self.attempt(now, false, info)),
            ..self
        };
        if self.fails_for_good() {
            JobModel { state: JobState::Failed, ..tried }
        } else {
            JobModel {
                state: JobState::Pending,
                started_at: None,
                run_at: later_by(now, backoff_delay(self.retries, self.current_try as nat, draw)),
                ..tried
            }
        }
    }
}

pub proof fn lemma_run_records_push(v: Seq<RunInfo>, r: RunInfo)
    ensures
        run_records(v.push(r)) == run_records(v).push(r@),
{
    assert(run_records(v.push(r)) =~= run_records(v).push(r@));
}

impl JobModel {
    /// A Running job stays well formed through a heartbeat, a checkpoint, a completion or a
    /// failure.
    pub proof fn lemma_transitions_wf(self, now: i64, info: Seq<char>, payload: Seq<u8>, draw: nat)
        requires
            self.wf(),
            self.state == JobState::Running,
        ensures
            self.heartbeat(now).wf(),
            self.checkpoint(payload, now).wf(),
            self.completed(info, now).wf(),
            self.failed(info, now, draw).wf(),
    {
        let c = self.completed(info, now);
        assert(c.run_info.last() == self.attempt(now, true, info));
        assert forall|i: int|
            0 <= i < c.run_info.len() && !(c.state == JobState::Succeeded && i == c.run_info.len()
                - 1) implies !(#[trigger] c.run_info[i]).success by {
            assert(c.run_info[i] == self.run_info[i]);
        }
        let f = self.failed(info, now, draw);
        assert forall|i: int|
            0 <= i < f.run_info.len() && !(f.state == JobState::Succeeded && i == f.run_info.len()
                - 1) implies !(#[trigger] f.run_info[i]).success by {
            if i < self.run_info.len() {
                assert(f.run_info[i] == self.run_info[i]);
            }
        }
    }
}

} // verus!
