//! The job table and the serialized operations that change it.
use vstd::prelude::*;
use crate::job::{
    ClaimedJob, JobModel, JobRow, JobState, NewJob, RunInfo, new_row, add_duration, add_wait, run_records,
    copy_bytes, contains_str, strings_view, JobStatus, copy_run_info,
};
use crate::sources::{new_external_id, random_draw, is_v4_uuid};
use crate::retry::retry_delay_ms;
use crate::table::{
    Error, table_wf, has_job, job_index, lemma_job_index, running_index, heartbeat_result,
    after_heartbeat, after_checkpoint, finish_result, after_complete, fail_result, after_fail,
    expired_info, is_expired, after_expiry, expired_ids, is_candidate, precedes, claim_indices,
    weight_sum, is_first_fit_claim, has_candidate, is_next_run_at, next_run_at_of,
    lemma_next_run_at_is_earliest, next_expiry_of,
};

verus! {

/// The table of jobs, in the order in which they were added. Every change goes through one
/// `&mut` method at a time, which gives the single-writer order of the store.
pub struct JobStore {
    jobs: Vec<JobRow>,
    next_job_id: u64,
}

proof fn lemma_push_contains(idx: Seq<int>, b: int)
    ensures
        forall|i: int| #[trigger] idx.push(b).contains(i) == (idx.contains(i) || i == b),
{
    assert forall|i: int| #[trigger] idx.push(b).contains(i) == (idx.contains(i) || i == b) by {
        if idx.contains(i) {
            let k = choose|k: int| 0 <= k < idx.len() && idx[k] == i;
            assert(idx.push(b)[k] == i);
        }
        if idx.push(b).contains(i) && i != b {
            let k = choose|k: int| 0 <= k < idx.push(b).len() && idx.push(b)[k] == i;
            assert(idx[k] == i);
        }
        if i == b {
            assert(idx.push(b)[idx.len() as int] == i);
        }
    }
}

/// Whether `r` keeps the rules of a stored job.
fn row_wf(r: &JobRow) -> (b: bool)
    ensures
        b == r@.wf(),
{
    let n = r.run_info.len();
    if r.weight < 1 || n as u64 != r.current_try || r.current_try > r.retries.max_retries as u64 + 1 {
        return false;
    }
    let running = match r.state {
        JobState::Running => true,
        _ => false,
    };
    if r.worker_id.is_some() != running {
        return false;
    }
    if running && (r.started_at.is_none() || r.expires_at.is_none()) {
        return false;
    }
    let succeeded = match r.state {
        JobState::Succeeded => true,
        _ => false,
    };
    match r.state {
        JobState::Pending => {
            if r.started_at.is_some() || r.expires_at.is_some() || r.current_try > r.retries.max_retries as u64 {
                return false;
            }
        },
        JobState::Running => {
            if r.current_try > r.retries.max_retries as u64 {
                return false;
            }
        },
        JobState::Succeeded => {
            if r.expires_at.is_some() || n == 0 || !r.run_info[n - 1].success {
                return false;
            }
        },
        JobState::Failed => {
            if r.expires_at.is_some() || r.current_try != r.retries.max_retries as u64 + 1 {
                return false;
            }
        },
    }
    let mut i: usize = 0;
    while i < n
        invariant
            n == r.run_info@.len(),
            i <= n,
            succeeded == (r.state == JobState::Succeeded),
            forall|k: int| 0 <= k < i && !(succeeded && k == n - 1) ==> !(#[trigger] r.run_info@[k]).success,
        decreases n - i,
    {
        if r.run_info[i].success && !(succeeded && i == n - 1) {
            assert(run_records(r.run_info@)[i as int] == r.run_info@[i as int]@);
            return false;
        }
        i += 1;
    }
    assert forall|k: int| 0 <= k < r@.run_info.len() && !(r@.state == JobState::Succeeded && k
        == r@.run_info.len() - 1) implies !(#[trigger] r@.run_info[k]).success by {
        assert(r@.run_info[k] == r.run_info@[k]@);
    }
    if succeeded {
        assert(r@.run_info.last() == r.run_info@[n - 1]@);
    }
    true
}

impl View for JobStore {
    type V = Seq<JobModel>;

    closed spec fn view(&self) -> Seq<JobModel> {
        self.jobs@.map_values(|j: JobRow| j@)
    }
}

impl JobStore {
    /// The id that the next submitted job gets.
    pub closed spec fn next_id(&self) -> u64 {
        self.next_job_id
    }

    /// The table keeps its rules, and every id in it is below `next_id`.
    pub closed spec fn wf(&self) -> bool {
        &&& table_wf(self@)
        &&& forall|i: int| 0 <= i < self@.len() ==> (#[trigger] self@[i]).job_id < self.next_job_id
    }

    /// The rules of the table hold of a well-formed store.
    pub proof fn lemma_table_wf(&self)
        requires
            self.wf(),
        ensures
            table_wf(self@),
    {
    }

    /// An empty table.
    pub fn new() -> (r: JobStore)
        ensures
            r.wf(),
            r@ == Seq::<JobModel>::empty(),
            r.next_id() == 1,
    {
        let r = JobStore { jobs: Vec::new(), next_job_id: 1 };
        assert(r@ =~= Seq::<JobModel>::empty());
        r
    }

    /// How many more jobs can be given ids.
    pub fn ids_left(&self) -> (r: u64)
        ensures
            r == u64::MAX - self.next_id(),
    {
        u64::MAX - self.next_job_id
    }

    /// The number of jobs in the table.
    pub fn len(&self) -> (r: usize)
        ensures
            r == self@.len(),
    {
        self.jobs.len()
    }

    /// The job at `i` in the table.
    pub fn row(&self, i: usize) -> (r: &JobRow)
        requires
            i < self@.len(),
        ensures
            r@ == self@[i as int],
    {
        &self.jobs[i]
    }

    /// The job with id `id`, if there is one.
    pub fn job(&self, id: u64) -> (r: Option<&JobRow>)
        requires
            self.wf(),
        ensures
            match r {
                Some(row) => has_job(self@, id) && row@ == self@[job_index(self@, id)],
                None => !has_job(self@, id),
            },
    {
        match self.find_job(id) {
            Some(i) => Some(&self.jobs[i]),
            None => None,
        }
    }

    fn find_job(&self, id: u64) -> (r: Option<usize>)
        requires
            self.wf(),
        ensures
            match r {
                Some(i) => i < self@.len() && self@[i as int].job_id == id && job_index(self@, id)
                    == i && has_job(self@, id),
                None => !has_job(self@, id),
            },
    {
        let mut i: usize = 0;
        while i < self.jobs.len()
            invariant
                self.wf(),
                i <= self.jobs@.len(),
                forall|k: int| 0 <= k < i ==> (#[trigger] self@[k]).job_id != id,
            decreases self.jobs@.len() - i,
        {
            if self.jobs[i].job_id == id {
                proof {
                    lemma_job_index(self@, id, i as int);
                }
                return Some(i);
            }
            i += 1;
        }
        None
    }

    /// The index of job `id` if it runs on worker `w`, or the error to report.
    fn find_running(&self, id: u64, w: u64) -> (r: Result<usize, Error>)
        requires
            self.wf(),
        ensures
            match r {
                Ok(i) => running_index(self@, id, w) == Ok::<int, Error>(i as int) && i
                    < self@.len(),
                Err(e) => running_index(self@, id, w) == Err::<int, Error>(e),
            },
    {
        match self.find_job(id) {
            None => Err(Error::JobNotFound),
            Some(i) => {
                let running = match self.jobs[i].state {
                    JobState::Running => match self.jobs[i].worker_id {
                        Some(owner) => owner == w,
                        None => false,
                    },
                    _ => false,
                };
                if running {
                    Ok(i)
                } else {
                    Err(Error::WorkerMismatch)
                }
            }
        }
    }

    /// Worker `w` reports at `now` that job `id` is still alive: its expiry moves to
    /// `now + heartbeat_increment` unless it was already later. Returns the new expiry.
    pub fn heartbeat(&mut self, id: u64, w: u64, now: i64) -> (r: Result<i64, Error>)
        requires
            old(self).wf(),
        ensures
            final(self).wf(),
            final(self).next_id() == old(self).next_id(),
            final(self)@ == after_heartbeat(old(self)@, id, w, now),
            r == heartbeat_result(old(self)@, id, w, now),
    {
        let i = match self.find_running(id, w) {
            Ok(i) => i,
            Err(e) => return Err(e),
        };
        let e = self.extended_expiry(i, now);
        self.jobs[i].expires_at = Some(e);
        proof {
            self.lemma_updated(*old(self), i as int);
        }
        Ok(e)
    }

    /// Worker `w` saves `payload` as the checkpoint of job `id` at `now`: later tries see it
    /// in place of the submitted payload, and the expiry moves as for a heartbeat.
    pub fn checkpoint(&mut self, id: u64, w: u64, payload: Vec<u8>, now: i64) -> (r: Result<
        i64,
        Error,
    >)
        requires
            old(self).wf(),
        ensures
            final(self).wf(),
            final(self).next_id() == old(self).next_id(),
            final(self)@ == after_checkpoint(old(self)@, id, w, payload@, now),
            r == heartbeat_result(old(self)@, id, w, now),
    {
        let i = match self.find_running(id, w) {
            Ok(i) => i,
            Err(e) => return Err(e),
        };
        proof {
            self@[i as int].lemma_transitions_wf(now, Seq::empty(), payload@, 0);
        }
        let e = self.extended_expiry(i, now);
        self.jobs[i].expires_at = Some(e);
        self.jobs[i].checkpointed_payload = Some(payload);
        proof {
            self.lemma_updated(*old(self), i as int);
        }
        Ok(e)
    }

    /// Worker `w` reports at `now` that the current try of job `id` succeeded with `info`.
    /// The attempt is recorded and the job becomes Succeeded, with no worker. A job that is
    /// not running on `w` (already finished, or expired and claimed again) is left as it is.
    pub fn complete(&mut self, id: u64, w: u64, info: String, now: i64) -> (r: Result<(), Error>)
        requires
            old(self).wf(),
        ensures
            final(self).wf(),
            final(self).next_id() == old(self).next_id(),
            final(self)@ == after_complete(old(self)@, id, w, info@, now),
            r == finish_result(old(self)@, id, w),
    {
        let i = match self.find_running(id, w) {
            Ok(i) => i,
            Err(e) => return Err(e),
        };
        proof {
            self@[i as int].lemma_transitions_wf(now, info@, Seq::empty(), 0);
        }
        let start = match self.jobs[i].started_at {
            Some(t) => t,
            None => now,
        };
        let ghost before = self.jobs@[i as int].run_info@;
        let record = RunInfo { start, end: now, success: true, info };
        proof {
            crate::job::lemma_run_records_push(before, record);
        }
        self.jobs[i].run_info.push(record);
        self.jobs[i].state = JobState::Succeeded;
        self.jobs[i].worker_id = None;
        self.jobs[i].expires_at = None;
        self.jobs[i].current_try = self.jobs[i].current_try + 1;
        proof {
            assert(self.jobs@[i as int]@ == old(self)@[i as int].completed(info@, now));
            self.lemma_updated(*old(self), i as int);
        }
        Ok(())
    }

    /// Records the failure at `now` of the current try of the Running job at `i`.
    fn fail_row(&mut self, i: usize, info: String, now: i64, draw: u32)
        requires
            old(self).wf(),
            i < old(self)@.len(),
            old(self)@[i as int].state == JobState::Running,
            draw <= 1000,
        ensures
            final(self).wf(),
            final(self).next_id() == old(self).next_id(),
            final(self)@ == old(self)@.update(
                i as int,
                old(self)@[i as int].failed(info@, now, draw as nat),
            ),
    {
        proof {
            self@[i as int].lemma_transitions_wf(now, info@, Seq::empty(), draw as nat);
        }
        let k = self.jobs[i].current_try;
        let start = match self.jobs[i].started_at {
            Some(t) => t,
            None => now,
        };
        let ghost before = self.jobs@[i as int].run_info@;
        let record = RunInfo { start, end: now, success: false, info };
        proof {
            crate::job::lemma_run_records_push(before, record);
        }
        self.jobs[i].run_info.push(record);
        self.jobs[i].worker_id = None;
        self.jobs[i].expires_at = None;
        self.jobs[i].current_try = k + 1;
        if k + 1 > self.jobs[i].retries.max_retries as u64 {
            self.jobs[i].state = JobState::Failed;
        } else {
            let delay = retry_delay_ms(&self.jobs[i].retries, k as u32, draw);
            proof {
                crate::retry::lemma_backoff_delay_bounds(self.jobs@[i as int].retries, k as nat, draw as nat);
            }
            self.jobs[i].state = JobState::Pending;
            self.jobs[i].started_at = None;
            self.jobs[i].run_at = add_wait(now, delay);
        }
        proof {
            assert(self.jobs@[i as int]@ == old(self)@[i as int].failed(info@, now, draw as nat));
            self.lemma_updated(*old(self), i as int);
        }
    }

    /// Worker `w` reports at `now` that the current try of job `id` failed with `info`.
    /// The attempt is recorded; the job is retried after the backoff delay picked by `draw`
    /// (in `0..=1000`), or fails for good when no retry is left. Returns the instant of the
    /// retry, or `None` when the job failed for good.
    pub fn fail(&mut self, id: u64, w: u64, info: String, now: i64, draw: u32) -> (r: Result<
        Option<i64>,
        Error,
    >)
        requires
            old(self).wf(),
            draw <= 1000,
        ensures
            final(self).wf(),
            final(self).next_id() == old(self).next_id(),
            final(self)@ == after_fail(old(self)@, id, w, info@, now, draw as nat),
            r == fail_result(old(self)@, id, w, now, draw as nat),
    {
        let i = match self.find_running(id, w) {
            Ok(i) => i,
            Err(e) => return Err(e),
        };
        let ghost info_v = info@;
        self.fail_row(i, info, now, draw);
        assert(self.jobs@.len() == self@.len());
        assert(self@[i as int] == old(self)@[i as int].failed(info_v, now, draw as nat));
        assert(self.jobs@[i as int]@ == self@[i as int]);
        match self.jobs[i].state {
            JobState::Failed => Ok(None),
            _ => Ok(Some(self.jobs[i].run_at)),
        }
    }

    /// Fails every Running job whose expiry is before `now`, as if its worker had reported
    /// `"Job expired"`; the job at `i` is retried after the backoff delay picked by
    /// `draws[i]` (in `0..=1000`). Returns the ids of those jobs.
    pub fn expire_jobs(&mut self, now: i64, draws: &Vec<u32>) -> (r: Vec<u64>)
        requires
            old(self).wf(),
            draws@.len() == old(self)@.len(),
            forall|i: int| 0 <= i < draws@.len() ==> #[trigger] draws@[i] <= 1000,
        ensures
            final(self).wf(),
            final(self).next_id() == old(self).next_id(),
            final(self)@ == after_expiry(old(self)@, now, draws@),
            r@ == expired_ids(old(self)@, now),
    {
        let mut r: Vec<u64> = Vec::new();
        let n = self.jobs.len();
        let mut i: usize = 0;
        while i < n
            invariant
                self.wf(),
                self.next_id() == old(self).next_id(),
                n == old(self)@.len(),
                self@.len() == n,
                self.jobs@.len() == n,
                draws@.len() == n,
                forall|k: int| 0 <= k < n ==> #[trigger] draws@[k] <= 1000,
                i <= n,
                forall|k: int| 0 <= k < i ==> #[trigger] self@[k] == (if is_expired(old(self)@[k], now) {
                    old(self)@[k].failed(expired_info(), now, draws@[k] as nat)
                } else {
                    old(self)@[k]
                }),
                forall|k: int| i <= k < n ==> #[trigger] self@[k] == old(self)@[k],
                r@ == expired_ids(old(self)@.subrange(0, i as int), now),
            decreases n - i,
        {
            assert(old(self)@.subrange(0, i + 1).drop_last() =~= old(self)@.subrange(0, i as int));
            assert(self.jobs@[i as int]@ == self@[i as int]);
            if self.is_expired_at(i, now) {
                let id = self.jobs[i].job_id;
                let info = "\"Job expired\"".to_owned();
                proof {
                    reveal_strlit("\"Job expired\"");
                    assert(info@ =~= expired_info());
                }
                self.fail_row(i, info, now, draws[i]);
                r.push(id);
            }
            i += 1;
        }
        assert(self@ =~= after_expiry(old(self)@, now, draws@));
        assert(old(self)@.subrange(0, n as int) =~= old(self)@);
        r
    }

    /// The earliest expiry among the Running jobs, when the expiry sweep has work next.
    pub fn next_expiry(&self) -> (r: Option<i64>)
        ensures
            r == next_expiry_of(self@),
    {
        let mut best: Option<i64> = None;
        let mut i: usize = 0;
        while i < self.jobs.len()
            invariant
                i <= self@.len(),
                self.jobs@.len() == self@.len(),
                best == next_expiry_of(self@.subrange(0, i as int)),
            decreases self@.len() - i,
        {
            assert(self@.subrange(0, i + 1).drop_last() =~= self@.subrange(0, i as int));
            assert(self.jobs@[i as int]@ == self@[i as int]);
            let e = match self.jobs[i].state {
                JobState::Running => self.jobs[i].expires_at,
                _ => None,
            };
            best = match (best, e) {
                (Some(x), Some(y)) => Some(if x <= y { x } else { y }),
                (Some(x), None) => Some(x),
                (None, _) => e,
            };
            i += 1;
        }
        assert(self@.subrange(0, self@.len() as int) =~= self@);
        best
    }

    /// Whether the job at `i` is Running with an expiry before `now`.
    fn is_expired_at(&self, i: usize, now: i64) -> (r: bool)
        requires
            i < self@.len(),
        ensures
            r == is_expired(self@[i as int], now),
    {
        assert(self.jobs@[i as int]@ == self@[i as int]);
        match self.jobs[i].state {
            JobState::Running => match self.jobs[i].expires_at {
                Some(e) => e < now,
                None => false,
            },
            _ => false,
        }
    }

    /// The expiry sweep at `now` with a random draw for each expired job (see
    /// `expire_jobs`). Returns the ids of the expired jobs.
    pub fn sweep_expired(&mut self, now: i64) -> (r: Vec<u64>)
        requires
            old(self).wf(),
        ensures
            final(self).wf(),
            final(self).next_id() == old(self).next_id(),
            exists|draws: Seq<u32>|
                draws.len() == old(self)@.len() && (forall|i: int|
                    0 <= i < draws.len() ==> #[trigger] draws[i] <= 1000) && final(self)@
                    == after_expiry(old(self)@, now, draws),
            r@ == expired_ids(old(self)@, now),
    {
        let mut draws: Vec<u32> = Vec::new();
        let mut i: usize = 0;
        while i < self.jobs.len()
            invariant
                i <= self@.len(),
                self.jobs@.len() == self@.len(),
                draws@.len() == i,
                forall|k: int| 0 <= k < i ==> #[trigger] draws@[k] <= 1000,
            decreases self@.len() - i,
        {
            let d = if self.is_expired_at(i, now) {
                random_draw()
            } else {
                0
            };
            draws.push(d);
            i += 1;
        }
        self.expire_jobs(now, &draws)
    }

    /// Appends `job`, submitted at `now`, under the next id and `external_id`.
    fn push_job(&mut self, job: NewJob, external_id: u128, now: i64) -> (r: u64)
        requires
            old(self).wf(),
            job.weight >= 1,
            old(self).next_id() < u64::MAX,
        ensures
            final(self).wf(),
            r == old(self).next_id(),
            final(self).next_id() == old(self).next_id() + 1,
            final(self)@ == old(self)@.push(new_row(job, r, external_id, now)),
    {
        let id = self.next_job_id;
        let run_at = match job.run_at {
            Some(t) => t,
            None => now,
        };
        let ghost spec_row = new_row(job, id, external_id, now);
        let row = JobRow {
            job_id: id,
            external_id,
            job_type: job.job_type,
            priority: job.priority,
            weight: job.weight,
            run_at,
            orig_run_at: run_at,
            payload: job.payload,
            checkpointed_payload: None,
            current_try: 0,
            retries: job.retries,
            timeout: job.timeout,
            heartbeat_increment: job.heartbeat_increment,
            worker_id: None,
            started_at: None,
            expires_at: None,
            state: JobState::Pending,
            run_info: Vec::new(),
        };
        assert(run_records(row.run_info@) =~= Seq::empty());
        assert(row@ == spec_row);
        self.jobs.push(row);
        self.next_job_id = id + 1;
        assert(self@ =~= old(self)@.push(spec_row));
        assert forall|a: int, b: int| 0 <= a < b < self@.len() implies (#[trigger] self@[a]).job_id
            < (#[trigger] self@[b]).job_id by {
            if b < old(self)@.len() {
                assert(old(self)@[a].job_id < old(self)@[b].job_id);
            } else {
                assert(old(self)@[a].job_id < id);
            }
        }
        assert forall|k: int| 0 <= k < self@.len() implies (#[trigger] self@[k]).wf()
            && self@[k].job_id < self.next_job_id by {
            if k < old(self)@.len() {
                assert(self@[k] == old(self)@[k]);
            }
        }
        id
    }

    /// Submits `jobs` at `now`, the `k`-th under `external_ids[k]`. They get consecutive
    /// ids from `next_id()`, which are returned in order. A job without `run_at` may run
    /// from `now` on.
    pub fn add_jobs_with_ids(&mut self, jobs: Vec<NewJob>, external_ids: &Vec<u128>, now: i64) -> (r:
        Vec<u64>)
        requires
            old(self).wf(),
            jobs@.len() == external_ids@.len(),
            forall|k: int| 0 <= k < jobs@.len() ==> (#[trigger] jobs@[k]).weight >= 1,
            old(self).next_id() + jobs@.len() <= u64::MAX,
        ensures
            final(self).wf(),
            final(self).next_id() == old(self).next_id() + jobs@.len(),
            r@.len() == jobs@.len(),
            final(self)@.len() == old(self)@.len() + jobs@.len(),
            forall|k: int| 0 <= k < old(self)@.len() ==> #[trigger] final(self)@[k] == old(self)@[k],
            forall|k: int|
                0 <= k < jobs@.len() ==> r@[k] == old(self).next_id() + k && #[trigger] final(self)@[old(self)@.len() + k] == new_row(
                    jobs@[k],
                    (old(self).next_id() + k) as u64,
                    external_ids@[k],
                    now,
                ),
    {
        let mut jobs = jobs;
        let ghost orig = jobs@;
        let ghost base = old(self)@.len();
        let ghost first = old(self).next_id();
        let n = jobs.len();
        let mut r: Vec<u64> = Vec::new();
        let mut i: usize = 0;
        while i < n
            invariant
                self.wf(),
                n == orig.len(),
                n == external_ids@.len(),
                base == old(self)@.len(),
                first == old(self).next_id(),
                jobs@.len() == n,
                i <= n,
                forall|k: int| i <= k < n ==> #[trigger] jobs@[k] == orig[k],
                forall|k: int| 0 <= k < n ==> (#[trigger] orig[k]).weight >= 1,
                old(self).next_id() + n <= u64::MAX,
                self.next_id() == old(self).next_id() + i,
                r@.len() == i,
                self@.len() == old(self)@.len() + i,
                forall|k: int| 0 <= k < old(self)@.len() ==> #[trigger] self@[k] == old(self)@[k],
                forall|k: int|
                    0 <= k < i ==> r@[k] == first + k && #[trigger] self@[base + k] == new_row(
                        orig[k],
                        (first + k) as u64,
                        external_ids@[k],
                        now,
                    ),
            decreases n - i,
        {
            let mut job = NewJob::default();
            std::mem::swap(&mut job, &mut jobs[i]);
            assert(job == orig[i as int]);
            let ghost before = self@;
            let id = self.push_job(job, external_ids[i], now);
            r.push(id);
            assert forall|k: int| 0 <= k <= i implies r@[k] == first + k && #[trigger] self@[base
                + k] == new_row(orig[k], (first + k) as u64, external_ids@[k], now) by {
                if k < i {
                    assert(self@[base + k] == before[base + k]);
                }
            }
            i += 1;
        }
        r
    }

    fn is_candidate_at(&self, i: usize, types: &Vec<String>, now: i64) -> (r: bool)
        requires
            i < self@.len(),
        ensures
            r == is_candidate(self@[i as int], strings_view(types@), now),
    {
        assert(self.jobs@[i as int]@ == self@[i as int]);
        match self.jobs[i].state {
            JobState::Pending => self.jobs[i].run_at <= now && contains_str(
                types,
                &self.jobs[i].job_type,
            ),
            _ => false,
        }
    }

    fn starts_before(&self, a: usize, b: usize) -> (r: bool)
        requires
            a < self@.len(),
            b < self@.len(),
        ensures
            r == precedes(self@[a as int], self@[b as int]),
    {
        assert(self.jobs@[a as int]@ == self@[a as int]);
        assert(self.jobs@[b as int]@ == self@[b as int]);
        let x = &self.jobs[a];
        let y = &self.jobs[b];
        x.priority > y.priority || (x.priority == y.priority && x.run_at < y.run_at) || (x.priority
            == y.priority && x.run_at == y.run_at && x.job_id < y.job_id)
    }

    /// The candidate that starts first, if there is one.
    fn first_candidate(&self, types: &Vec<String>, now: i64) -> (r: Option<usize>)
        requires
            self.wf(),
        ensures
            match r {
                Some(b) => b < self@.len() && is_candidate(self@[b as int], strings_view(types@), now)
                    && forall|m: int|
                    0 <= m < self@.len() && m != b && is_candidate(
                        #[trigger] self@[m],
                        strings_view(types@),
                        now,
                    ) ==> precedes(self@[b as int], self@[m]),
                None => forall|m: int|
                    0 <= m < self@.len() ==> !is_candidate(
                        #[trigger] self@[m],
                        strings_view(types@),
                        now,
                    ),
            },
    {
        let ghost tv = strings_view(types@);
        let n = self.jobs.len();
        let mut best: Option<usize> = None;
        let mut i: usize = 0;
        while i < n
            invariant
                self.wf(),
                n == self@.len(),
                tv == strings_view(types@),
                i <= n,
                match best {
                    Some(b) => b < i && is_candidate(self@[b as int], tv, now) && forall|m: int|
                        0 <= m < i && m != b && is_candidate(#[trigger] self@[m], tv, now)
                            ==> precedes(self@[b as int], self@[m]),
                    None => forall|m: int| 0 <= m < i ==> !is_candidate(#[trigger] self@[m], tv, now),
                },
            decreases n - i,
        {
            if self.is_candidate_at(i, types, now) {
                match best {
                    None => {
                        best = Some(i);
                    },
                    Some(b) => {
                        if self.starts_before(i, b) {
                            assert forall|m: int|
                                0 <= m < i + 1 && m != i && is_candidate(#[trigger] self@[m], tv, now)
                                    implies precedes(self@[i as int], self@[m]) by {
                                if m != b {
                                    assert(precedes(self@[b as int], self@[m]));
                                }
                            }
                            best = Some(i);
                        } else {
                            assert(self@[b as int].job_id < self@[i as int].job_id);
                        }
                    },
                }
            }
            i += 1;
        }
        best
    }

    /// Marks the Pending job at `b` Running on `w` from `now`.
    fn claim_row(&mut self, b: usize, w: u64, now: i64) -> (r: ClaimedJob)
        requires
            old(self).wf(),
            b < old(self)@.len(),
            old(self)@[b as int].state == JobState::Pending,
        ensures
            final(self).wf(),
            final(self).next_id() == old(self).next_id(),
            final(self)@ == old(self)@.update(b as int, old(self)@[b as int].claimed(w, now)),
            r.describes(final(self)@[b as int]),
    {
        assert(self.jobs@[b as int]@ == self@[b as int]);
        let expires = add_duration(now, self.jobs[b].timeout);
        self.jobs[b].state = JobState::Running;
        self.jobs[b].worker_id = Some(w);
        self.jobs[b].started_at = Some(now);
        self.jobs[b].expires_at = Some(expires);
        proof {
            assert(self.jobs@[b as int]@ == old(self)@[b as int].claimed(w, now));
            self.lemma_updated(*old(self), b as int);
        }
        let payload = match &self.jobs[b].checkpointed_payload {
            Some(p) => copy_bytes(p),
            None => copy_bytes(&self.jobs[b].payload),
        };
        let row = &self.jobs[b];
        ClaimedJob {
            job_id: row.job_id,
            external_id: row.external_id,
            job_type: row.job_type.clone(),
            priority: row.priority,
            weight: row.weight,
            payload,
            current_try: row.current_try,
            heartbeat_increment: row.heartbeat_increment,
            started_at: now,
            expires_at: expires,
        }
    }

    /// Worker `w`, which accepts `types` and has `budget` of concurrency free, claims at
    /// `now` the ready jobs that it may run: it walks the Pending jobs of those types whose
    /// `run_at` has come, in starting order (higher priority, then earlier `run_at`, then
    /// lower id), and takes them while their weights fit in the budget, stopping at the first
    /// that does not. Each claimed job becomes Running on `w`, started at `now`, expiring
    /// after its timeout. Returns the claimed jobs in starting order.
    pub fn claim_jobs(&mut self, w: u64, types: &Vec<String>, now: i64, budget: u64) -> (r: Vec<
        ClaimedJob,
    >)
        requires
            old(self).wf(),
        ensures
            final(self).wf(),
            final(self).next_id() == old(self).next_id(),
            is_first_fit_claim(
                old(self)@,
                final(self)@,
                r@.map_values(|c: ClaimedJob| c.job_id),
                w,
                strings_view(types@),
                now,
                budget as int,
            ),
            forall|k: int|
                0 <= k < r@.len() ==> (#[trigger] r@[k]).describes(
                    final(self)@[job_index(old(self)@, r@[k].job_id)],
                ),
    {
        let ghost s = self@;
        let ghost tv = strings_view(types@);
        let mut r: Vec<ClaimedJob> = Vec::new();
        let ghost mut idx: Seq<int> = Seq::empty();
        let mut used: u64 = 0;
        loop
            invariant
                self.wf(),
                self.next_id() == old(self).next_id(),
                s == old(self)@,
                tv == strings_view(types@),
                self@.len() == s.len(),
                self.jobs@.len() == s.len(),
                used <= budget,
                used == weight_sum(s, idx),
                idx.len() == r@.len(),
                forall|k: int|
                    0 <= k < idx.len() ==> 0 <= #[trigger] idx[k] < s.len() && is_candidate(
                        s[idx[k]],
                        tv,
                        now,
                    ) && r@[k].describes(self@[idx[k]]),
                forall|i: int|
                    0 <= i < s.len() ==> #[trigger] self@[i] == if idx.contains(i) {
                        s[i].claimed(w, now)
                    } else {
                        s[i]
                    },
                forall|k: int, l: int|
                    0 <= k < l < idx.len() ==> precedes(s[#[trigger] idx[k]], s[#[trigger] idx[l]]),
                forall|k: int, i: int|
                    0 <= k < idx.len() && 0 <= i < s.len() && is_candidate(s[i], tv, now)
                        && !idx.contains(i) ==> precedes(s[#[trigger] idx[k]], #[trigger] s[i]),
            ensures
                self.wf(),
                self.next_id() == old(self).next_id(),
                self@.len() == s.len(),
                used == weight_sum(s, idx),
                used <= budget,
                idx.len() == r@.len(),
                forall|k: int|
                    0 <= k < idx.len() ==> 0 <= #[trigger] idx[k] < s.len() && is_candidate(
                        s[idx[k]],
                        tv,
                        now,
                    ) && r@[k].describes(self@[idx[k]]),
                forall|i: int|
                    0 <= i < s.len() ==> #[trigger] self@[i] == if idx.contains(i) {
                        s[i].claimed(w, now)
                    } else {
                        s[i]
                    },
                forall|k: int, l: int|
                    0 <= k < l < idx.len() ==> precedes(s[#[trigger] idx[k]], s[#[trigger] idx[l]]),
                forall|k: int, i: int|
                    0 <= k < idx.len() && 0 <= i < s.len() && is_candidate(s[i], tv, now)
                        && !idx.contains(i) ==> precedes(s[#[trigger] idx[k]], #[trigger] s[i]),
                forall|i: int|
                    0 <= i < s.len() && is_candidate(#[trigger] s[i], tv, now) && !idx.contains(i)
                        && (forall|m: int|
                        0 <= m < s.len() && m != i && is_candidate(s[m], tv, now) && !idx.contains(
                            m,
                        ) ==> precedes(s[i], s[m])) ==> used + s[i].weight > budget,
            decreases budget - used,
        {
            let b = match self.first_candidate(types, now) {
                None => {
                    assert forall|i: int|
                        0 <= i < s.len() && is_candidate(#[trigger] s[i], tv, now) implies idx.contains(
                            i,
                        ) by {
                        assert(!is_candidate(self@[i], tv, now));
                    }
                    break ;
                },
                Some(b) => b,
            };
            assert(self@[b as int] == s[b as int] && !idx.contains(b as int)) by {
                if idx.contains(b as int) {
                    assert(self@[b as int] == s[b as int].claimed(w, now));
                }
            }
            assert forall|i: int|
                0 <= i < s.len() && i != b && is_candidate(s[i], tv, now) && !idx.contains(i) implies
                precedes(s[b as int], #[trigger] s[i]) by {
                assert(self@[i] == s[i]);
            }
            assert(self.jobs@[b as int]@ == self@[b as int]);
            let wt = self.jobs[b].weight as u64;
            if wt > budget - used {
                assert forall|i: int|
                    0 <= i < s.len() && is_candidate(#[trigger] s[i], tv, now) && !idx.contains(i)
                        && (forall|m: int|
                        0 <= m < s.len() && m != i && is_candidate(s[m], tv, now) && !idx.contains(
                            m,
                        ) ==> precedes(s[i], s[m])) implies used + s[i].weight > budget by {
                    if i != b {
                        assert(precedes(s[i], s[b as int]));
                        assert(precedes(s[b as int], s[i]));
                    }
                }
                break ;
            }
            let claimed = self.claim_row(b, w, now);
            r.push(claimed);
            proof {
                let ghost old_idx = idx;
                idx = idx.push(b as int);
                assert(idx.drop_last() =~= old_idx);
                lemma_push_contains(old_idx, b as int);
                assert forall|k: int| 0 <= k < idx.len() implies 0 <= #[trigger] idx[k] < s.len()
                    && is_candidate(s[idx[k]], tv, now) && r@[k].describes(self@[idx[k]]) by {
                    if k < old_idx.len() {
                        assert(idx[k] == old_idx[k]);
                        assert(old_idx[k] != b);
                    }
                }
            }
            used = used + wt;
        }
        proof {
            let ids = r@.map_values(|c: ClaimedJob| c.job_id);
            assert forall|k: int| 0 <= k < idx.len() implies claim_indices(s, ids)[k] == idx[k]
                && has_job(s, #[trigger] ids[k]) && r@[k].describes(
                self@[job_index(s, r@[k].job_id)],
            ) by {
                assert(self@[idx[k]].job_id == s[idx[k]].job_id);
                assert(ids[k] == r@[k].job_id);
                lemma_job_index(s, ids[k], idx[k]);
            }
            assert(claim_indices(s, ids) =~= idx);
            assert forall|k: int| 0 <= k < r@.len() implies (#[trigger] r@[k]).describes(
                self@[job_index(s, r@[k].job_id)],
            ) by {
                assert(ids[k] == r@[k].job_id);
            }
        }
        r
    }

    /// Submits `jobs` at `now` under fresh random external ids. They get consecutive ids from
    /// `next_id()`, which are returned in order.
    pub fn add_jobs(&mut self, jobs: Vec<NewJob>, now: i64) -> (r: Vec<u64>)
        requires
            old(self).wf(),
            forall|k: int| 0 <= k < jobs@.len() ==> (#[trigger] jobs@[k]).weight >= 1,
            old(self).next_id() + jobs@.len() <= u64::MAX,
        ensures
            final(self).wf(),
            final(self).next_id() == old(self).next_id() + jobs@.len(),
            r@.len() == jobs@.len(),
            final(self)@.len() == old(self)@.len() + jobs@.len(),
            forall|k: int| 0 <= k < old(self)@.len() ==> #[trigger] final(self)@[k] == old(self)@[k],
            forall|k: int|
                0 <= k < jobs@.len() ==> r@[k] == old(self).next_id() + k && #[trigger] final(self)@[old(self)@.len() + k] == new_row(
                    jobs@[k],
                    (old(self).next_id() + k) as u64,
                    final(self)@[old(self)@.len() + k].external_id,
                    now,
                ),
            forall|k: int|
                0 <= k < jobs@.len() ==> is_v4_uuid(
                    #[trigger] final(self)@[old(self)@.len() + k].external_id,
                ),
    {
        let mut ids: Vec<u128> = Vec::new();
        let mut i: usize = 0;
        while i < jobs.len()
            invariant
                i <= jobs@.len(),
                ids@.len() == i,
                forall|k: int| 0 <= k < i ==> is_v4_uuid(#[trigger] ids@[k]),
            decreases jobs@.len() - i,
        {
            ids.push(new_external_id());
            i += 1;
        }
        let ghost jobs_v = jobs@;
        let r = self.add_jobs_with_ids(jobs, &ids, now);
        assert forall|k: int| 0 <= k < jobs_v.len() implies #[trigger] self@[old(self)@.len() + k].external_id == ids@[k] by {
            assert(self@[old(self)@.len() + k] == new_row(jobs_v[k], (old(self).next_id() + k) as u64, ids@[k], now));
        }
        r
    }

    /// What the queue tells about the first job with external id `id`, if there is one.
    pub fn job_status(&self, id: u128) -> (r: Option<JobStatus>)
        ensures
            match r {
                Some(st) => exists|i: int|
                    0 <= i < self@.len() && (#[trigger] self@[i]).external_id == id && st.describes(
                        self@[i],
                    ) && forall|k: int| 0 <= k < i ==> (#[trigger] self@[k]).external_id != id,
                None => forall|k: int| 0 <= k < self@.len() ==> (#[trigger] self@[k]).external_id != id,
            },
    {
        let mut i: usize = 0;
        while i < self.jobs.len()
            invariant
                i <= self@.len(),
                self.jobs@.len() == self@.len(),
                forall|k: int| 0 <= k < i ==> (#[trigger] self@[k]).external_id != id,
            decreases self@.len() - i,
        {
            assert(self.jobs@[i as int]@ == self@[i as int]);
            if self.jobs[i].external_id == id {
                let row = &self.jobs[i];
                let st = JobStatus {
                    id: row.external_id,
                    job_type: row.job_type.clone(),
                    state: row.state,
                    orig_run_at: row.orig_run_at,
                    run_at: row.run_at,
                    started_at: row.started_at,
                    current_try: row.current_try,
                    run_info: copy_run_info(&row.run_info),
                };
                assert(st.describes(self@[i as int]));
                return Some(st);
            }
            i += 1;
        }
        None
    }

    /// Whether a worker that accepts `types` could claim a job at `now`.
    pub fn has_ready_job(&self, types: &Vec<String>, now: i64) -> (r: bool)
        ensures
            r == has_candidate(self@, strings_view(types@), now),
    {
        let mut i: usize = 0;
        while i < self.jobs.len()
            invariant
                i <= self@.len(),
                self.jobs@.len() == self@.len(),
                forall|k: int| 0 <= k < i ==> !is_candidate(#[trigger] self@[k], strings_view(types@), now),
            decreases self@.len() - i,
        {
            if self.is_candidate_at(i, types, now) {
                return true;
            }
            i += 1;
        }
        false
    }

    /// The earliest instant after `now` at which a Pending job of `types` becomes ready.
    pub fn next_run_at(&self, types: &Vec<String>, now: i64) -> (r: Option<i64>)
        ensures
            r == next_run_at_of(self@, strings_view(types@), now),
            is_next_run_at(self@, strings_view(types@), now, r),
    {
        let ghost tv = strings_view(types@);
        let mut best: Option<i64> = None;
        let mut i: usize = 0;
        while i < self.jobs.len()
            invariant
                i <= self@.len(),
                self.jobs@.len() == self@.len(),
                tv == strings_view(types@),
                best == next_run_at_of(self@.subrange(0, i as int), tv, now),
            decreases self@.len() - i,
        {
            assert(self@.subrange(0, i + 1).drop_last() =~= self@.subrange(0, i as int));
            assert(self.jobs@[i as int]@ == self@[i as int]);
            let upcoming = match self.jobs[i].state {
                JobState::Pending => self.jobs[i].run_at > now && contains_str(
                    types,
                    &self.jobs[i].job_type,
                ),
                _ => false,
            };
            if upcoming {
                let t = self.jobs[i].run_at;
                best = match best {
                    Some(b) => Some(if b <= t { b } else { t }),
                    None => Some(t),
                };
            }
            i += 1;
        }
        assert(self@.subrange(0, self@.len() as int) =~= self@);
        proof {
            lemma_next_run_at_is_earliest(self@, tv, now);
        }
        best
    }

    /// A store holding `rows`, as read back from storage, if they keep the rules of the
    /// table (ids increasing, each job well formed); `None` otherwise. The next id is one
    /// past the last row's.
    pub fn restore(rows: Vec<JobRow>) -> (r: Option<JobStore>)
        ensures
            match r {
                Some(st) => st.wf() && st@ == rows@.map_values(|j: JobRow| j@),
                None => !table_wf(rows@.map_values(|j: JobRow| j@)) || (rows@.len() > 0
                    && rows@.last().job_id == u64::MAX),
            },
    {
        let ghost v = rows@.map_values(|j: JobRow| j@);
        let mut i: usize = 0;
        while i < rows.len()
            invariant
                i <= rows@.len(),
                v == rows@.map_values(|j: JobRow| j@),
                forall|k: int| 0 <= k < i ==> (#[trigger] v[k]).wf(),
                forall|a: int, b: int| 0 <= a < b < i ==> (#[trigger] v[a]).job_id < (#[trigger] v[b]).job_id,
            decreases rows@.len() - i,
        {
            assert(rows@[i as int]@ == v[i as int]);
            if !row_wf(&rows[i]) {
                return None;
            }
            if i > 0 && rows[i - 1].job_id >= rows[i].job_id {
                assert(rows@[i - 1]@ == v[i - 1]);
                return None;
            }
            proof {
                if i > 0 {
                    assert(rows@[i - 1]@ == v[i - 1]);
                    assert forall|a: int, b: int| 0 <= a < b < i + 1 implies (#[trigger] v[a]).job_id < (#[trigger] v[b]).job_id by {
                        if b == i && a < i - 1 {
                            assert(v[a].job_id < v[i - 1].job_id);
                        }
                    }
                }
            }
            i += 1;
        }
        let n = rows.len();
        let next_job_id: u64 = if n == 0 {
            1
        } else {
            if rows[n - 1].job_id == u64::MAX {
                return None;
            }
            rows[n - 1].job_id + 1
        };
        let st = JobStore { jobs: rows, next_job_id };
        assert(st@ == v);
        assert forall|k: int| 0 <= k < st@.len() implies (#[trigger] st@[k]).job_id < next_job_id by {
            if k < n - 1 {
                assert(v[k].job_id < v[n - 1].job_id);
            }
            assert(rows@[n - 1]@ == v[n - 1]);
        }
        Some(st)
    }

    fn extended_expiry(&self, i: usize, now: i64) -> (r: i64)
        requires
            i < self@.len(),
        ensures
            r == self@[i as int].extended_expiry(now),
    {
        let new_expiry = add_duration(now, self.jobs[i].heartbeat_increment);
        match self.jobs[i].expires_at {
            Some(old_expiry) => if new_expiry > old_expiry {
                new_expiry
            } else {
                old_expiry
            },
            None => new_expiry,
        }
    }

    proof fn lemma_updated(self, prev: JobStore, i: int)
        requires
            prev.wf(),
            0 <= i < prev@.len(),
            self.next_job_id == prev.next_job_id,
            self.jobs@.len() == prev.jobs@.len(),
            forall|k: int| 0 <= k < self.jobs@.len() && k != i ==> self.jobs@[k] == prev.jobs@[k],
            self.jobs@[i]@.wf(),
            self.jobs@[i].job_id == prev.jobs@[i].job_id,
        ensures
            self.wf(),
            self@ == prev@.update(i, self.jobs@[i]@),
    {
        assert(self.jobs@ =~= prev.jobs@.update(i, self.jobs@[i]));
        assert(self@ =~= prev@.update(i, self.jobs@[i]@));
        assert forall|k: int| 0 <= k < self@.len() implies (#[trigger] self@[k]).wf()
            && self@[k].job_id == prev@[k].job_id by {
            if k != i {
                assert(self@[k] == prev@[k]);
            }
        }
        assert forall|a: int, b: int| 0 <= a < b < self@.len() implies (#[trigger] self@[a]).job_id
            < (#[trigger] self@[b]).job_id by {
            assert(prev@[a].job_id < prev@[b].job_id);
        }
    }
}

} // verus!
