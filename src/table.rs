//! The job table as a sequence of job models, and what each operation does to it.
use vstd::prelude::*;
use crate::job::{JobModel, JobState, later_by};
use crate::retry::backoff_delay;

verus! {

/// The errors that the queue reports to its callers.
#[derive(Clone, Debug, PartialEq, Eq)]
pub enum Error {
    /// The store could not be opened; the text says why.
    OpenDatabase(String),
    /// Workers did not stop within the time allowed.
    Timeout,
    /// No job has the given id.
    JobNotFound,
    /// The job is not running on the worker that asked.
    WorkerMismatch,
    /// The queue was closed.
    QueueClosed,
    /// The store could not read or write a job; the text says why.
    Database(String),
    /// A value could not be encoded; the text says why.
    Encoding(String),
}

/// Job ids grow along the table, so each names at most one job.
pub open spec fn ids_increasing(s: Seq<JobModel>) -> bool {
    forall|i: int, j: int|
        0 <= i < j < s.len() ==> (#[trigger] s[i]).job_id < (#[trigger] s[j]).job_id
}

/// The rules that the job table keeps.
pub open spec fn table_wf(s: Seq<JobModel>) -> bool {
    &&& ids_increasing(s)
    &&& forall|i: int| 0 <= i < s.len() ==> (#[trigger] s[i]).wf()
}

pub open spec fn has_job(s: Seq<JobModel>, id: u64) -> bool {
    exists|i: int| 0 <= i < s.len() && (#[trigger] s[i]).job_id == id
}

/// Where job `id` stands in the table (meaningful when `has_job(s, id)`).
pub open spec fn job_index(s: Seq<JobModel>, id: u64) -> int {
    choose|i: int| 0 <= i < s.len() && (#[trigger] s[i]).job_id == id
}

pub proof fn lemma_job_index(s: Seq<JobModel>, id: u64, i: int)
    requires
        ids_increasing(s),
        0 <= i < s.len(),
        s[i].job_id == id,
    ensures
        has_job(s, id),
        job_index(s, id) == i,
{
    assert(has_job(s, id));
    let k = job_index(s, id);
    if k < i {
        assert(s[k].job_id < s[i].job_id);
    } else if k > i {
        assert(s[i].job_id < s[k].job_id);
    }
}

/// The index of job `id` if it runs on worker `w`; otherwise the error that an operation of
/// that worker on that job reports.
pub open spec fn running_index(s: Seq<JobModel>, id: u64, w: u64) -> Result<int, Error> {
    if !has_job(s, id) {
        Err(Error::JobNotFound)
    } else if !s[job_index(s, id)].is_running_on(w) {
        Err(Error::WorkerMismatch)
    } else {
        Ok(job_index(s, id))
    }
}

/// The new expiry that a heartbeat of worker `w` on job `id` at `now` returns.
pub open spec fn heartbeat_result(s: Seq<JobModel>, id: u64, w: u64, now: i64) -> Result<
    i64,
    Error,
> {
    match running_index(s, id, w) {
        Ok(i) => Ok(s[i].extended_expiry(now)),
        Err(e) => Err(e),
    }
}

/// The table after that heartbeat.
pub open spec fn after_heartbeat(s: Seq<JobModel>, id: u64, w: u64, now: i64) -> Seq<JobModel> {
    match running_index(s, id, w) {
        Ok(i) => s.update(i, s[i].heartbeat(now)),
        Err(_) => s,
    }
}

/// The table after worker `w` saved `payload` as the checkpoint of job `id` at `now`.
/// It returns the same as a heartbeat.
pub open spec fn after_checkpoint(
    s: Seq<JobModel>,
    id: u64,
    w: u64,
    payload: Seq<u8>,
    now: i64,
) -> Seq<JobModel> {
    match running_index(s, id, w) {
        Ok(i) => s.update(i, s[i].checkpoint(payload, now)),
        Err(_) => s,
    }
}

/// What completing job `id` for worker `w` returns.
pub open spec fn finish_result(s: Seq<JobModel>, id: u64, w: u64) -> Result<(), Error> {
    match running_index(s, id, w) {
        Ok(_) => Ok(()),
        Err(e) => Err(e),
    }
}

/// The table after worker `w` completed job `id` at `now` with `info`.
pub open spec fn after_complete(
    s: Seq<JobModel>,
    id: u64,
    w: u64,
    info: Seq<char>,
    now: i64,
) -> Seq<JobModel> {
    match running_index(s, id, w) {
        Ok(i) => s.update(i, s[i].completed(info, now)),
        Err(_) => s,
    }
}

/// What failing job `id` for worker `w` returns: the instant of the retry, or `None` when the
/// job failed for good.
pub open spec fn fail_result(s: Seq<JobModel>, id: u64, w: u64, now: i64, draw: nat) -> Result<
    Option<i64>,
    Error,
> {
    match running_index(s, id, w) {
        Ok(i) => if s[i].fails_for_good() {
            Ok(None)
        } else {
            Ok(Some(later_by(now, backoff_delay(s[i].retries, s[i].current_try as nat, draw))))
        },
        Err(e) => Err(e),
    }
}

/// The table after worker `w` reported that the current try of job `id` failed at `now`.
pub open spec fn after_fail(
    s: Seq<JobModel>,
    id: u64,
    w: u64,
    info: Seq<char>,
    now: i64,
    draw: nat,
) -> Seq<JobModel> {
    match running_index(s, id, w) {
        Ok(i) => s.update(i, s[i].failed(info, now, draw)),
        Err(_) => s,
    }
}

/// The JSON-encoded message recorded for a try that ran past its expiry.
pub open spec fn expired_info() -> Seq<char> {
    seq!['"', 'J', 'o', 'b', ' ', 'e', 'x', 'p', 'i', 'r', 'e', 'd', '"']
}

/// Whether the job is Running with an expiry before `now`.
pub open spec fn is_expired(j: JobModel, now: i64) -> bool {
    j.state == JobState::Running && match j.expires_at {
        Some(e) => e < now,
        None => false,
    }
}

/// The table after the expiry sweep at `now`: each expired job fails as if its worker had
/// reported `expired_info()`, the job at `i` with the backoff delay picked by `draws[i]`.
pub open spec fn after_expiry(s: Seq<JobModel>, now: i64, draws: Seq<u32>) -> Seq<JobModel> {
    Seq::new(
        s.len(),
        |i: int|
            if is_expired(s[i], now) {
                s[i].failed(expired_info(), now, draws[i] as nat)
            } else {
                s[i]
            },
    )
}

/// The ids of the expired jobs, in table order.
pub open spec fn expired_ids(s: Seq<JobModel>, now: i64) -> Seq<u64>
    decreases s.len(),
{
    if s.len() == 0 {
        Seq::empty()
    } else if is_expired(s.last(), now) {
        expired_ids(s.drop_last(), now).push(s.last().job_id)
    } else {
        expired_ids(s.drop_last(), now)
    }
}

/// Whether worker `w`, which accepts `types`, may claim job `j` at `now`.
pub open spec fn is_candidate(j: JobModel, types: Seq<Seq<char>>, now: i64) -> bool {
    &&& j.state == JobState::Pending
    &&& types.contains(j.job_type)
    &&& j.run_at <= now
}

/// The order in which jobs start: higher priority first, then earlier `run_at`, then lower id.
pub open spec fn precedes(a: JobModel, b: JobModel) -> bool {
    ||| a.priority > b.priority
    ||| (a.priority == b.priority && a.run_at < b.run_at)
    ||| (a.priority == b.priority && a.run_at == b.run_at && a.job_id < b.job_id)
}

/// Whether some job in `s` may be claimed at `now` by a worker that accepts `types`.
pub open spec fn has_candidate(s: Seq<JobModel>, types: Seq<Seq<char>>, now: i64) -> bool {
    exists|i: int| 0 <= i < s.len() && is_candidate(#[trigger] s[i], types, now)
}

/// Whether `j` is a Pending job of one of `types` that becomes ready after `now`.
pub open spec fn is_upcoming(j: JobModel, types: Seq<Seq<char>>, now: i64) -> bool {
    &&& j.state == JobState::Pending
    &&& types.contains(j.job_type)
    &&& j.run_at > now
}

/// The earliest `run_at` after `now` among the Pending jobs of `types`, if there is one.
pub open spec fn is_next_run_at(s: Seq<JobModel>, types: Seq<Seq<char>>, now: i64, r: Option<i64>) -> bool {
    match r {
        None => forall|i: int| 0 <= i < s.len() ==> !is_upcoming(#[trigger] s[i], types, now),
        Some(t) => (exists|i: int|
            0 <= i < s.len() && is_upcoming(#[trigger] s[i], types, now) && s[i].run_at == t)
            && forall|i: int|
            0 <= i < s.len() && is_upcoming(#[trigger] s[i], types, now) ==> t <= s[i].run_at,
    }
}

/// The earlier of two optional instants.
pub open spec fn earlier(a: Option<i64>, b: Option<i64>) -> Option<i64> {
    match (a, b) {
        (Some(x), Some(y)) => Some(if x <= y { x } else { y }),
        (Some(x), None) => Some(x),
        (None, _) => b,
    }
}

/// The earliest `run_at` after `now` among the Pending jobs of `types`, if there is one.
pub open spec fn next_run_at_of(s: Seq<JobModel>, types: Seq<Seq<char>>, now: i64) -> Option<i64>
    decreases s.len(),
{
    if s.len() == 0 {
        None
    } else {
        earlier(
            next_run_at_of(s.drop_last(), types, now),
            if is_upcoming(s.last(), types, now) { Some(s.last().run_at) } else { None },
        )
    }
}

/// `next_run_at_of` is the least `run_at` of the upcoming jobs.
pub proof fn lemma_next_run_at_is_earliest(s: Seq<JobModel>, types: Seq<Seq<char>>, now: i64)
    ensures
        is_next_run_at(s, types, now, next_run_at_of(s, types, now)),
    decreases s.len(),
{
    if s.len() > 0 {
        let d = s.drop_last();
        lemma_next_run_at_is_earliest(d, types, now);
        let r = next_run_at_of(s, types, now);
        match r {
            Some(t) => {
                if is_upcoming(s.last(), types, now) && s.last().run_at == t {
                    assert(s[s.len() - 1] == s.last());
                } else {
                    let w = choose|w: int| 0 <= w < d.len() && is_upcoming(#[trigger] d[w], types, now) && d[w].run_at == t;
                    assert(s[w] == d[w]);
                }
                assert forall|i: int| 0 <= i < s.len() && is_upcoming(#[trigger] s[i], types, now) implies t <= s[i].run_at by {
                    if i < d.len() {
                        assert(s[i] == d[i]);
                    }
                }
            },
            None => {
                assert forall|i: int| 0 <= i < s.len() implies !is_upcoming(#[trigger] s[i], types, now) by {
                    if i < d.len() {
                        assert(s[i] == d[i]);
                    }
                }
            },
        }
    }
}

/// The earliest expiry among the Running jobs of `s`, if there is one.
pub open spec fn next_expiry_of(s: Seq<JobModel>) -> Option<i64>
    decreases s.len(),
{
    if s.len() == 0 {
        None
    } else {
        earlier(
            next_expiry_of(s.drop_last()),
            if s.last().state == JobState::Running { s.last().expires_at } else { None },
        )
    }
}

/// The table indices of the jobs with ids `ids`.
pub open spec fn claim_indices(s: Seq<JobModel>, ids: Seq<u64>) -> Seq<int> {
    ids.map_values(|id: u64| job_index(s, id))
}

/// The sum of the weights of the jobs at `idx`.
pub open spec fn weight_sum(s: Seq<JobModel>, idx: Seq<int>) -> int
    decreases idx.len(),
{
    if idx.len() == 0 {
        0
    } else {
        weight_sum(s, idx.drop_last()) + s[idx.last()].weight
    }
}

/// Worker `w`, which accepts `types` and has `budget` of concurrency free, turned table `s`
/// into `t` at `now` by claiming the jobs with ids `ids`, in that order. The claim walks the
/// candidates in starting order and takes them while their weights fit in the budget:
/// - each claimed job was a candidate, and is now Running on `w` from `now`; no other job
///   changed;
/// - the claimed jobs come in starting order, and each precedes every candidate left;
/// - their weights fit in the budget, and the first candidate left would not fit.
pub open spec fn is_first_fit_claim(
    s: Seq<JobModel>,
    t: Seq<JobModel>,
    ids: Seq<u64>,
    w: u64,
    types: Seq<Seq<char>>,
    now: i64,
    budget: int,
) -> bool {
    let idx = claim_indices(s, ids);
    &&& t.len() == s.len()
    &&& forall|k: int| 0 <= k < ids.len() ==> has_job(s, #[trigger] ids[k])
    &&& forall|k: int|
        0 <= k < idx.len() ==> 0 <= idx[k] < s.len() && is_candidate(
            s[#[trigger] idx[k]],
            types,
            now,
        )
    &&& forall|i: int|
        0 <= i < s.len() ==> #[trigger] t[i] == if idx.contains(i) {
            s[i].claimed(w, now)
        } else {
            s[i]
        }
    &&& forall|k: int, l: int|
        0 <= k < l < idx.len() ==> precedes(s[#[trigger] idx[k]], s[#[trigger] idx[l]])
    &&& forall|k: int, i: int|
        0 <= k < idx.len() && 0 <= i < s.len() && is_candidate(s[i], types, now) && !idx.contains(
            i,
        ) ==> precedes(s[#[trigger] idx[k]], #[trigger] s[i])
    &&& weight_sum(s, idx) <= budget
    &&& forall|i: int|
        0 <= i < s.len() && is_candidate(#[trigger] s[i], types, now) && !idx.contains(i) && (
        forall|m: int|
            0 <= m < s.len() && m != i && is_candidate(s[m], types, now) && !idx.contains(m)
                ==> precedes(s[i], s[m])) ==> weight_sum(s, idx) + s[i].weight > budget
}

/// The sum of the weights of the jobs that worker `w` runs.
pub open spec fn running_weight(s: Seq<JobModel>, w: u64) -> int
    decreases s.len(),
{
    if s.len() == 0 {
        0
    } else {
        running_weight(s.drop_last(), w) + if s.last().is_running_on(w) {
            s.last().weight as int
        } else {
            0
        }
    }
}

} // verus!
