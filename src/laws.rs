//! Properties that relate several operations of the job table, or hold of every state it
//! can reach.
use vstd::prelude::*;
use crate::job::{JobModel, JobState};
use crate::store::JobStore;
use crate::table::{
    table_wf, ids_increasing, has_job, job_index, lemma_job_index, running_index,
    after_checkpoint, after_complete, finish_result, after_fail, fail_result, is_first_fit_claim,
    claim_indices, weight_sum, running_weight, precedes,
};

verus! {

/// The contribution of `j` to the running weight of worker `w`.
pub open spec fn weight_on(j: JobModel, w: u64) -> int {
    if j.is_running_on(w) { j.weight as int } else { 0 }
}

proof fn lemma_running_weight_update(s: Seq<JobModel>, i: int, x: JobModel, w: u64)
    requires
        0 <= i < s.len(),
    ensures
        running_weight(s.update(i, x), w) == running_weight(s, w) - weight_on(s[i], w)
            + weight_on(x, w),
    decreases s.len(),
{
    let u = s.update(i, x);
    if i == s.len() - 1 {
        assert(u.drop_last() =~= s.drop_last());
    } else {
        assert(u.drop_last() =~= s.drop_last().update(i, x));
        lemma_running_weight_update(s.drop_last(), i, x, w);
    }
}

/// The weight of the jobs among the first `n` of the table whose indices are in `idx`.
spec fn weight_at(s: Seq<JobModel>, idx: Seq<int>, n: int) -> int
    decreases n,
{
    if n <= 0 {
        0
    } else {
        weight_at(s, idx, n - 1) + if idx.contains(n - 1) { s[n - 1].weight as int } else { 0 }
    }
}

proof fn lemma_weight_at_push(s: Seq<JobModel>, idx: Seq<int>, b: int, n: int)
    requires
        !idx.contains(b),
        0 <= b,
    ensures
        weight_at(s, idx.push(b), n) == weight_at(s, idx, n) + if b < n { s[b].weight as int } else { 0 },
    decreases n,
{
    if n > 0 {
        lemma_weight_at_push(s, idx, b, n - 1);
        assert(idx.push(b).contains(n - 1) == (idx.contains(n - 1) || n - 1 == b)) by {
            if idx.contains(n - 1) {
                let k = choose|k: int| 0 <= k < idx.len() && idx[k] == n - 1;
                assert(idx.push(b)[k] == n - 1);
            }
            if n - 1 == b {
                assert(idx.push(b)[idx.len() as int] == b);
            }
            if idx.push(b).contains(n - 1) && n - 1 != b {
                let k = choose|k: int| 0 <= k < idx.push(b).len() && idx.push(b)[k] == n - 1;
                assert(idx[k] == n - 1);
            }
        }
    }
}

proof fn lemma_weight_at_is_sum(s: Seq<JobModel>, idx: Seq<int>)
    requires
        forall|k: int| 0 <= k < idx.len() ==> 0 <= #[trigger] idx[k] < s.len(),
        forall|k: int, l: int| 0 <= k < l < idx.len() ==> idx[k] != idx[l],
    ensures
        weight_at(s, idx, s.len() as int) == weight_sum(s, idx),
    decreases idx.len(),
{
    if idx.len() == 0 {
        lemma_weight_at_empty(s, idx, s.len() as int);
    } else {
        let d = idx.drop_last();
        assert(d.push(idx.last()) =~= idx);
        assert(!d.contains(idx.last())) by {
            if d.contains(idx.last()) {
                let k = choose|k: int| 0 <= k < d.len() && d[k] == idx.last();
                assert(idx[k] == idx[idx.len() - 1]);
            }
        }
        assert(0 <= idx[idx.len() - 1]);
        lemma_weight_at_push(s, d, idx.last(), s.len() as int);
        lemma_weight_at_is_sum(s, d);
    }
}

proof fn lemma_weight_at_empty(s: Seq<JobModel>, idx: Seq<int>, n: int)
    requires
        idx.len() == 0,
    ensures
        weight_at(s, idx, n) == 0,
    decreases n,
{
    if n > 0 {
        lemma_weight_at_empty(s, idx, n - 1);
    }
}

proof fn lemma_claim_running_weight(s: Seq<JobModel>, t: Seq<JobModel>, idx: Seq<int>, w: u64, now: i64, n: int)
    requires
        0 <= n <= s.len(),
        t.len() == s.len(),
        forall|i: int| 0 <= i < s.len() ==> #[trigger] t[i] == if idx.contains(i) {
            s[i].claimed(w, now)
        } else {
            s[i]
        },
        forall|i: int| 0 <= i < s.len() && idx.contains(i) ==> (#[trigger] s[i]).state == JobState::Pending,
    ensures
        running_weight(t.subrange(0, n), w) == running_weight(s.subrange(0, n), w) + weight_at(s, idx, n),
    decreases n,
{
    if n > 0 {
        lemma_claim_running_weight(s, t, idx, w, now, n - 1);
        assert(t.subrange(0, n).drop_last() =~= t.subrange(0, n - 1));
        assert(s.subrange(0, n).drop_last() =~= s.subrange(0, n - 1));
        assert(t[n - 1] == t.subrange(0, n).last());
        assert(s[n - 1] == s.subrange(0, n).last());
    }
}

/// A claim keeps the worker within its concurrency: if the weights of the jobs running on `w`
/// add up to `running`, at most `max`, and `w` claims with a budget of `max - running`, the
/// weights of its running jobs then add up to `running` plus those of the claimed jobs, and
/// still to at most `max`.
pub proof fn claim_respects_max_concurrency(
    s: Seq<JobModel>,
    t: Seq<JobModel>,
    ids: Seq<u64>,
    w: u64,
    types: Seq<Seq<char>>,
    now: i64,
    running: int,
    max: int,
)
    requires
        running_weight(s, w) == running,
        running <= max,
        is_first_fit_claim(s, t, ids, w, types, now, max - running),
    ensures
        running_weight(t, w) == running + weight_sum(s, claim_indices(s, ids)),
        running_weight(t, w) <= max,
{
    let idx = claim_indices(s, ids);
    assert forall|k: int, l: int| 0 <= k < l < idx.len() implies idx[k] != idx[l] by {
        assert(precedes(s[idx[k]], s[idx[l]]));
    }
    assert forall|i: int| 0 <= i < s.len() && idx.contains(i) implies (#[trigger] s[i]).state
        == JobState::Pending by {
        let k = choose|k: int| 0 <= k < idx.len() && idx[k] == i;
        assert(0 <= idx[k] < s.len());
    }
    lemma_claim_running_weight(s, t, idx, w, now, s.len() as int);
    assert(t.subrange(0, s.len() as int) =~= t);
    assert(s.subrange(0, s.len() as int) =~= s);
    lemma_weight_at_is_sum(s, idx);
}

/// Completing or failing a job of worker `w` frees its weight: the running weight of `w`
/// drops by the job's weight, and that of every other worker stays. A heartbeat or a
/// checkpoint changes no running weight. So only claims add running weight.
pub proof fn finishing_frees_the_weight(
    s: Seq<JobModel>,
    id: u64,
    w: u64,
    other: u64,
    info: Seq<char>,
    payload: Seq<u8>,
    now: i64,
    draw: nat,
)
    requires
        table_wf(s),
        running_index(s, id, w) is Ok,
    ensures
        running_weight(after_complete(s, id, w, info, now), w) == running_weight(s, w)
            - s[job_index(s, id)].weight,
        running_weight(after_fail(s, id, w, info, now, draw), w) == running_weight(s, w)
            - s[job_index(s, id)].weight,
        other != w ==> running_weight(after_complete(s, id, w, info, now), other) == running_weight(s, other),
        other != w ==> running_weight(after_fail(s, id, w, info, now, draw), other) == running_weight(s, other),
        running_weight(after_checkpoint(s, id, w, payload, now), other) == running_weight(s, other),
        running_weight(crate::table::after_heartbeat(s, id, w, now), other) == running_weight(s, other),
{
    let i = job_index(s, id);
    let j = s[i];
    lemma_running_weight_update(s, i, j.completed(info, now), w);
    lemma_running_weight_update(s, i, j.failed(info, now, draw), w);
    lemma_running_weight_update(s, i, j.completed(info, now), other);
    lemma_running_weight_update(s, i, j.failed(info, now, draw), other);
    lemma_running_weight_update(s, i, j.checkpoint(payload, now), other);
    lemma_running_weight_update(s, i, j.heartbeat(now), other);
}

/// The expiry sweep never adds running weight to a worker.
pub proof fn expiry_frees_weight(s: Seq<JobModel>, now: i64, draws: Seq<u32>, w: u64)
    ensures
        running_weight(crate::table::after_expiry(s, now, draws), w) <= running_weight(s, w),
    decreases s.len(),
{
    if s.len() > 0 {
        let e = crate::table::after_expiry(s, now, draws);
        assert(e.drop_last() =~= crate::table::after_expiry(s.drop_last(), now, draws));
        expiry_frees_weight(s.drop_last(), now, draws, w);
        assert(e.last() == e[s.len() - 1]);
    }
}

proof fn lemma_weight_sum_at_least(s: Seq<JobModel>, idx: Seq<int>, k: int)
    requires
        0 <= k < idx.len(),
    ensures
        weight_sum(s, idx) >= s[idx[k]].weight,
    decreases idx.len(),
{
    lemma_weight_sum_nonneg(s, idx.drop_last());
    if k < idx.len() - 1 {
        lemma_weight_sum_at_least(s, idx.drop_last(), k);
    }
}

proof fn lemma_weight_sum_nonneg(s: Seq<JobModel>, idx: Seq<int>)
    ensures
        weight_sum(s, idx) >= 0,
    decreases idx.len(),
{
    if idx.len() > 0 {
        lemma_weight_sum_nonneg(s, idx.drop_last());
    }
}

/// A job heavier than the budget is never claimed: it starves on a worker whose maximum
/// concurrency is below its weight.
pub proof fn overweight_job_is_never_claimed(
    s: Seq<JobModel>,
    t: Seq<JobModel>,
    ids: Seq<u64>,
    w: u64,
    types: Seq<Seq<char>>,
    now: i64,
    budget: int,
    i: int,
)
    requires
        is_first_fit_claim(s, t, ids, w, types, now, budget),
        0 <= i < s.len(),
        s[i].weight > budget,
    ensures
        !claim_indices(s, ids).contains(i),
        t[i] == s[i],
{
    let idx = claim_indices(s, ids);
    if idx.contains(i) {
        let k = choose|k: int| 0 <= k < idx.len() && idx[k] == i;
        lemma_weight_sum_at_least(s, idx, k);
    }
}

/// In every well-formed store, each job has one attempt record per try made: the number of
/// records equals `current_try`. Every operation of the store keeps it well formed.
pub proof fn attempts_match_tries(store: JobStore)
    requires
        store.wf(),
    ensures
        forall|i: int|
            0 <= i < store@.len() ==> (#[trigger] store@[i]).run_info.len() == store@[i].current_try,
{
    store.lemma_table_wf();
    assert forall|i: int| 0 <= i < store@.len() implies (#[trigger] store@[i]).run_info.len()
        == store@[i].current_try by {
        assert(store@[i].wf());
    }
}

/// In every well-formed store, a job that Succeeded or Failed has no worker.
pub proof fn finished_jobs_have_no_worker(store: JobStore)
    requires
        store.wf(),
    ensures
        forall|i: int|
            0 <= i < store@.len() && ((#[trigger] store@[i]).state == JobState::Succeeded
                || store@[i].state == JobState::Failed) ==> store@[i].worker_id is None,
{
    store.lemma_table_wf();
    assert forall|i: int|
        0 <= i < store@.len() && ((#[trigger] store@[i]).state == JobState::Succeeded
            || store@[i].state == JobState::Failed) implies store@[i].worker_id is None by {
        assert(store@[i].wf());
    }
}

/// After a completion, or a failure that leaves no retry, the job has no worker; after a
/// completion or any failure it has one attempt record per try.
pub proof fn finishing_clears_the_worker(
    s: Seq<JobModel>,
    id: u64,
    w: u64,
    info: Seq<char>,
    now: i64,
    draw: nat,
)
    requires
        table_wf(s),
        running_index(s, id, w) is Ok,
    ensures
        after_complete(s, id, w, info, now)[job_index(s, id)].worker_id is None,
        after_complete(s, id, w, info, now)[job_index(s, id)].state == JobState::Succeeded,
        after_complete(s, id, w, info, now)[job_index(s, id)].run_info.len() == after_complete(
            s,
            id,
            w,
            info,
            now,
        )[job_index(s, id)].current_try,
        after_fail(s, id, w, info, now, draw)[job_index(s, id)].run_info.len() == after_fail(
            s,
            id,
            w,
            info,
            now,
            draw,
        )[job_index(s, id)].current_try,
        fail_result(s, id, w, now, draw) == Ok::<Option<i64>, crate::table::Error>(None) ==> after_fail(
            s,
            id,
            w,
            info,
            now,
            draw,
        )[job_index(s, id)].worker_id is None,
{
}

/// A job that saved a checkpoint and then failed with a retry left is Pending again, and its
/// next try sees the checkpoint as its payload.
pub proof fn checkpoint_survives_retry(
    s: Seq<JobModel>,
    id: u64,
    w: u64,
    payload: Seq<u8>,
    at: i64,
    info: Seq<char>,
    now: i64,
    draw: nat,
)
    requires
        table_wf(s),
        running_index(s, id, w) is Ok,
        !s[job_index(s, id)].fails_for_good(),
    ensures
        ({
            let s2 = after_fail(after_checkpoint(s, id, w, payload, at), id, w, info, now, draw);
            &&& s2[job_index(s, id)].state == JobState::Pending
            &&& s2[job_index(s, id)].effective_payload() == payload
        }),
{
    let i = job_index(s, id);
    let s1 = after_checkpoint(s, id, w, payload, at);
    assert(s1[i].job_id == id);
    assert(ids_increasing(s1)) by {
        assert forall|a: int, b: int| 0 <= a < b < s1.len() implies (#[trigger] s1[a]).job_id
            < (#[trigger] s1[b]).job_id by {
            assert(s[a].job_id < s[b].job_id);
        }
    }
    lemma_job_index(s1, id, i);
}

/// Completing a job a second time changes nothing and reports an error.
pub proof fn second_completion_is_noop(
    s: Seq<JobModel>,
    id: u64,
    w: u64,
    info: Seq<char>,
    now: i64,
    info2: Seq<char>,
    now2: i64,
)
    requires
        table_wf(s),
    ensures
        ({
            let s1 = after_complete(s, id, w, info, now);
            &&& after_complete(s1, id, w, info2, now2) == s1
            &&& finish_result(s1, id, w) is Err
        }),
{
    let s1 = after_complete(s, id, w, info, now);
    if has_job(s, id) {
        let i = job_index(s, id);
        assert(s1[i].job_id == id);
        assert(ids_increasing(s1)) by {
            assert forall|a: int, b: int| 0 <= a < b < s1.len() implies (#[trigger] s1[a]).job_id
                < (#[trigger] s1[b]).job_id by {
                assert(s[a].job_id < s[b].job_id);
            }
        }
        lemma_job_index(s1, id, i);
    }
}

/// A failure of try `k` with a retry left makes the job Pending for try `k + 1`, to run after
/// a wait `d` with `d * 1000^(k+1) <= I * m^k * (1000 + r)` (multiplier `m` and randomization
/// `r` in thousandths), and with `d >= I * (m / 1000)^k` whenever `m` is a whole number (at
/// least one) of thousands. This holds wherever the retry instant `now + d` fits an `i64`.
pub proof fn retry_waits_within_backoff_bounds(
    s: Seq<JobModel>,
    id: u64,
    w: u64,
    info: Seq<char>,
    now: i64,
    draw: nat,
)
    requires
        table_wf(s),
        running_index(s, id, w) is Ok,
        !s[job_index(s, id)].fails_for_good(),
        draw <= 1000,
        now + crate::retry::backoff_delay(
            s[job_index(s, id)].retries,
            s[job_index(s, id)].current_try as nat,
            draw,
        ) <= i64::MAX,
    ensures
        ({
            let j = s[job_index(s, id)];
            let t = after_fail(s, id, w, info, now, draw)[job_index(s, id)];
            let k = j.current_try as nat;
            let rt = j.retries;
            &&& t.state == JobState::Pending
            &&& t.current_try == j.current_try + 1
            &&& t.run_info.len() == t.current_try
            &&& (t.run_at - now) * vstd::arithmetic::power::pow(1000, k) * 1000
                <= rt.backoff_initial_interval * vstd::arithmetic::power::pow(
                rt.backoff_multiplier as int,
                k,
            ) * (1000 + rt.backoff_randomization)
            &&& (rt.backoff_multiplier >= 1000 && rt.backoff_multiplier % 1000 == 0) ==> t.run_at
                - now
                >= rt.backoff_initial_interval * vstd::arithmetic::power::pow(
                (rt.backoff_multiplier / 1000) as int,
                k,
            )
        }),
{
    let j = s[job_index(s, id)];
    assert(j.wf());
    let k = j.current_try as nat;
    crate::retry::backoff_delay_upper_bound(j.retries, k, draw);
    if j.retries.backoff_multiplier >= 1000 && j.retries.backoff_multiplier % 1000 == 0 {
        crate::retry::backoff_delay_lower_bound(j.retries, k, draw);
    }
    crate::retry::lemma_backoff_delay_bounds(j.retries, k, draw);
}

/// A job with no retries fails for good on its first failure.
pub proof fn no_retries_means_first_failure_is_final(
    s: Seq<JobModel>,
    id: u64,
    w: u64,
    info: Seq<char>,
    now: i64,
    draw: nat,
)
    requires
        table_wf(s),
        running_index(s, id, w) is Ok,
        s[job_index(s, id)].retries.max_retries == 0,
    ensures
        fail_result(s, id, w, now, draw) == Ok::<Option<i64>, crate::table::Error>(None),
        after_fail(s, id, w, info, now, draw)[job_index(s, id)].state == JobState::Failed,
{
    assert(s[job_index(s, id)].wf());
}

} // verus!
