//! The decisions of a worker's dispatch loop and of the runner of each job. The loop itself
//! (waiting on signals, spawning tasks) runs outside the library and asks these functions
//! what to do next.
use vstd::prelude::*;
use crate::job::{ClaimedJob, strings_view};
use crate::store::JobStore;
use crate::table::{is_first_fit_claim, claim_indices, weight_sum, running_weight};

verus! {

/// The sum of `ws`.
pub open spec fn sum_weights(ws: Seq<u32>) -> int
    decreases ws.len(),
{
    if ws.len() == 0 {
        0
    } else {
        sum_weights(ws.drop_last()) + ws.last()
    }
}

/// The concurrency bookkeeping of one worker: the weights of its running jobs add up to
/// `running`, which never exceeds `max_concurrency`.
#[derive(Clone, Copy, Debug, PartialEq, Eq, Structural)]
pub struct Dispatcher {
    min_concurrency: u16,
    max_concurrency: u16,
    running: u32,
    closing: bool,
}

/// What the dispatch loop should wait for next.
#[derive(Clone, Copy, Debug, PartialEq, Eq, Structural)]
pub struct Wait {
    /// Whether a "jobs are ready" signal should wake the loop.
    pub ready_signal: bool,
    /// Whether a "job finished" signal should wake the loop.
    pub finished_signal: bool,
}

impl Dispatcher {
    /// Claim more jobs when the running weight drops below this.
    pub closed spec fn min_limit(self) -> int {
        self.min_concurrency as int
    }

    /// The most running weight allowed at once.
    pub closed spec fn max_limit(self) -> int {
        self.max_concurrency as int
    }

    pub closed spec fn running_weight(self) -> int {
        self.running as int
    }

    pub closed spec fn is_closing(self) -> bool {
        self.closing
    }

    pub closed spec fn wf(self) -> bool {
        self.running <= self.max_concurrency
    }

    /// A well-formed worker runs at most its maximum concurrency.
    pub proof fn lemma_within_max(self)
        requires
            self.wf(),
        ensures
            0 <= self.running_weight() <= self.max_limit(),
    {
    }

    /// The weight that the worker still has room for.
    pub open spec fn free_weight(self) -> int {
        self.max_limit() - self.running_weight()
    }

    /// A worker with nothing running.
    pub fn new(min_concurrency: u16, max_concurrency: u16) -> (r: Dispatcher)
        ensures
            r.wf(),
            r.min_limit() == min_concurrency,
            r.max_limit() == max_concurrency,
            r.running_weight() == 0,
            !r.is_closing(),
    {
        Dispatcher { min_concurrency, max_concurrency, running: 0, closing: false }
    }

    pub fn min_concurrency(&self) -> (r: u16)
        ensures
            r == self.min_limit(),
    {
        self.min_concurrency
    }

    pub fn max_concurrency(&self) -> (r: u16)
        ensures
            r == self.max_limit(),
    {
        self.max_concurrency
    }

    /// Computes `free_weight`.
    pub fn free(&self) -> (r: u32)
        requires
            self.wf(),
        ensures
            r == self.free_weight(),
    {
        self.max_concurrency as u32 - self.running
    }

    /// The weight of the jobs running now.
    pub fn running(&self) -> (r: u32)
        ensures
            r == self.running_weight(),
    {
        self.running
    }

    /// Whether the worker is shutting down.
    pub fn closing(&self) -> (r: bool)
        ensures
            r == self.is_closing(),
    {
        self.closing
    }

    /// How much weight to claim now: the free budget when the running weight is below the
    /// minimum and the worker is not shutting down, else nothing.
    pub open spec fn budget(self) -> Option<u32> {
        if !self.is_closing() && self.running_weight() < self.min_limit() {
            Some((self.max_limit() - self.running_weight()) as u32)
        } else {
            None
        }
    }

    /// Computes `budget`.
    pub fn claim_budget(&self) -> (r: Option<u32>)
        requires
            self.wf(),
        ensures
            r == self.budget(),
    {
        if !self.closing && self.running < self.min_concurrency as u32 {
            Some(self.max_concurrency as u32 - self.running)
        } else {
            None
        }
    }

    /// Counts the jobs that a claim with the budget of `claim_budget` started.
    pub fn jobs_started(&mut self, weights: &Vec<u32>)
        requires
            old(self).wf(),
            old(self).running_weight() + sum_weights(weights@) <= old(self).max_limit(),
        ensures
            final(self).wf(),
            final(self).running_weight() == old(self).running_weight() + sum_weights(weights@),
            final(self).min_limit() == old(self).min_limit(),
            final(self).max_limit() == old(self).max_limit(),
            final(self).is_closing() == old(self).is_closing(),
    {
        let mut i: usize = 0;
        let ghost start = self.running;
        while i < weights.len()
            invariant
                i <= weights@.len(),
                self.running == start + sum_weights(weights@.subrange(0, i as int)),
                start + sum_weights(weights@) <= self.max_concurrency,
                self.max_concurrency == old(self).max_concurrency,
                self.min_concurrency == old(self).min_concurrency,
                self.closing == old(self).closing,
                start == old(self).running,
            decreases weights@.len() - i,
        {
            assert(weights@.subrange(0, i + 1).drop_last() =~= weights@.subrange(0, i as int));
            proof {
                lemma_sum_prefix(weights@, i as int + 1);
            }
            self.running = self.running + weights[i];
            i += 1;
        }
        assert(weights@.subrange(0, weights@.len() as int) =~= weights@);
    }

    /// Counts a job of weight `weight` that finished.
    pub fn job_finished(&mut self, weight: u32)
        requires
            old(self).wf(),
            weight <= old(self).running_weight(),
        ensures
            final(self).wf(),
            final(self).running_weight() == old(self).running_weight() - weight,
            final(self).min_limit() == old(self).min_limit(),
            final(self).max_limit() == old(self).max_limit(),
            final(self).is_closing() == old(self).is_closing(),
    {
        self.running = self.running - weight;
    }

    /// Stops claiming: from now on the worker only waits for its running jobs.
    pub fn shut_down(&mut self)
        ensures
            final(self).is_closing(),
            final(self).running_weight() == old(self).running_weight(),
            final(self).min_limit() == old(self).min_limit(),
            final(self).max_limit() == old(self).max_limit(),
            old(self).wf() ==> final(self).wf(),
    {
        self.closing = true;
    }

    /// Whether a shutting-down worker has no job left running.
    pub fn drained(&self) -> (r: bool)
        ensures
            r == (self.is_closing() && self.running_weight() == 0),
    {
        self.closing && self.running == 0
    }

    /// The signals that the loop waits on: "jobs are ready" only while the running weight is
    /// below the minimum, "job finished" always.
    pub fn wait_for(&self) -> (r: Wait)
        ensures
            r.ready_signal == (!self.is_closing() && self.running_weight() < self.min_limit()),
            r.finished_signal,
    {
        Wait {
            ready_signal: !self.closing && self.running < self.min_concurrency as u32,
            finished_signal: true,
        }
    }
}

proof fn lemma_sum_prefix(ws: Seq<u32>, i: int)
    requires
        0 < i <= ws.len(),
    ensures
        sum_weights(ws.subrange(0, i)) == sum_weights(ws.subrange(0, i - 1)) + ws[i - 1],
        sum_weights(ws.subrange(0, i)) <= sum_weights(ws),
    decreases ws.len() - i,
{
    assert(ws.subrange(0, i).drop_last() =~= ws.subrange(0, i - 1));
    if i < ws.len() {
        lemma_sum_prefix(ws, i + 1);
    } else {
        assert(ws.subrange(0, i) =~= ws);
    }
}

proof fn lemma_sums_agree(ws: Seq<u32>, s: Seq<crate::job::JobModel>, idx: Seq<int>)
    requires
        ws.len() == idx.len(),
        forall|k: int| 0 <= k < ws.len() ==> #[trigger] ws[k] == s[idx[k]].weight,
    ensures
        sum_weights(ws) == weight_sum(s, idx),
    decreases ws.len(),
{
    if ws.len() > 0 {
        lemma_sums_agree(ws.drop_last(), s, idx.drop_last());
    }
}

/// One claim round of worker `w`, which runs `types`: it claims at `now` the ready jobs
/// that fit in the worker's free weight, `max_concurrency - running` (see
/// `JobStore::claim_jobs`), and counts their weights as running. Whether to claim at all
/// (below the minimum, not shutting down) is the dispatch loop's decision: `claim_budget`.
/// If the running weight counted the weights of the jobs running on `w` before, it still
/// does, and stays within the maximum concurrency.
pub fn run_ready_jobs(
    store: &mut JobStore,
    dispatcher: &mut Dispatcher,
    w: u64,
    types: &Vec<String>,
    now: i64,
) -> (r: Vec<ClaimedJob>)
    requires
        old(store).wf(),
        old(dispatcher).wf(),
    ensures
        final(store).wf(),
        final(dispatcher).wf(),
        final(store).next_id() == old(store).next_id(),
        final(dispatcher).min_limit() == old(dispatcher).min_limit(),
        final(dispatcher).max_limit() == old(dispatcher).max_limit(),
        final(dispatcher).is_closing() == old(dispatcher).is_closing(),
        is_first_fit_claim(
            old(store)@,
            final(store)@,
            r@.map_values(|c: ClaimedJob| c.job_id),
            w,
            strings_view(types@),
            now,
            old(dispatcher).free_weight(),
        ),
        final(dispatcher).running_weight() == old(dispatcher).running_weight() + weight_sum(
            old(store)@,
            claim_indices(old(store)@, r@.map_values(|c: ClaimedJob| c.job_id)),
        ),
        forall|k: int|
            0 <= k < r@.len() ==> (#[trigger] r@[k]).describes(
                final(store)@[crate::table::job_index(old(store)@, r@[k].job_id)],
            ),
        running_weight(old(store)@, w) == old(dispatcher).running_weight() ==> running_weight(
            final(store)@,
            w,
        ) == final(dispatcher).running_weight() && final(dispatcher).running_weight()
            <= final(dispatcher).max_limit(),
{
    let budget = dispatcher.free();
    let ghost s = store@;
    let claimed = store.claim_jobs(w, types, now, budget as u64);
    let ghost ids = claimed@.map_values(|c: ClaimedJob| c.job_id);
    let ghost idx = claim_indices(s, ids);
    let mut weights: Vec<u32> = Vec::new();
    let mut i: usize = 0;
    while i < claimed.len()
        invariant
            i <= claimed@.len(),
            weights@.len() == i,
            idx.len() == claimed@.len(),
            ids == claimed@.map_values(|c: ClaimedJob| c.job_id),
            idx == claim_indices(s, ids),
            forall|k: int| 0 <= k < claimed@.len() ==> 0 <= #[trigger] idx[k] < s.len(),
            forall|k: int|
                0 <= k < claimed@.len() ==> (#[trigger] claimed@[k]).describes(
                    store@[crate::table::job_index(s, claimed@[k].job_id)],
                ),
            forall|i: int|
                0 <= i < s.len() ==> #[trigger] store@[i] == if idx.contains(i) {
                    s[i].claimed(w, now)
                } else {
                    s[i]
                },
            store@.len() == s.len(),
            forall|k: int| 0 <= k < i ==> #[trigger] weights@[k] == s[idx[k]].weight,
        decreases claimed@.len() - i,
    {
        proof {
            assert(ids[i as int] == claimed@[i as int].job_id);
            assert(idx[i as int] == crate::table::job_index(s, claimed@[i as int].job_id));
            assert(store@[idx[i as int]].weight == s[idx[i as int]].weight);
        }
        weights.push(claimed[i].weight);
        i += 1;
    }
    proof {
        lemma_sums_agree(weights@, s, idx);
        if running_weight(s, w) == old(dispatcher).running_weight() {
            crate::laws::claim_respects_max_concurrency(
                s,
                store@,
                ids,
                w,
                strings_view(types@),
                now,
                old(dispatcher).running_weight(),
                old(dispatcher).max_limit(),
            );
        }
    }
    dispatcher.jobs_started(&weights);
    claimed
}

/// The highest weight among `weights`, or 1 if there is none.
pub open spec fn max_weight(weights: Seq<u16>) -> int
    decreases weights.len(),
{
    if weights.len() == 0 {
        1
    } else {
        let m = max_weight(weights.drop_last());
        if weights.last() > m { weights.last() as int } else { m }
    }
}

/// A worker's concurrency limits from what its builder was given: the maximum defaults to the
/// highest weight of the job types it runs and is never below it; the minimum defaults to
/// half the maximum and is at least 1.
pub open spec fn concurrency_limits(
    min: Option<u16>,
    max: Option<u16>,
    weights: Seq<u16>,
) -> (u16, u16) {
    let jobs_max = max_weight(weights) as u16;
    let mx = match max {
        Some(m) => if m > jobs_max { m } else { jobs_max },
        None => jobs_max,
    };
    let mn = match min {
        Some(m) => m,
        None => mx / 2,
    };
    (if mn > 1 { mn } else { 1 }, mx)
}

proof fn lemma_max_weight_bounds(weights: Seq<u16>)
    ensures
        1 <= max_weight(weights) <= u16::MAX,
    decreases weights.len(),
{
    if weights.len() > 0 {
        lemma_max_weight_bounds(weights.drop_last());
    }
}

/// Computes `concurrency_limits(min, max, weights)`.
pub fn resolve_concurrency(min: Option<u16>, max: Option<u16>, weights: &Vec<u16>) -> (r: (
    u16,
    u16,
))
    ensures
        r == concurrency_limits(min, max, weights@),
{
    let mut jobs_max: u16 = 1;
    let mut i: usize = 0;
    while i < weights.len()
        invariant
            i <= weights@.len(),
            jobs_max == max_weight(weights@.subrange(0, i as int)),
        decreases weights@.len() - i,
    {
        assert(weights@.subrange(0, i + 1).drop_last() =~= weights@.subrange(0, i as int));
        proof {
            lemma_max_weight_bounds(weights@.subrange(0, i as int));
        }
        if weights[i] > jobs_max {
            jobs_max = weights[i];
        }
        i += 1;
    }
    assert(weights@.subrange(0, weights@.len() as int) =~= weights@);
    let mx = match max {
        Some(m) => if m > jobs_max {
            m
        } else {
            jobs_max
        },
        None => jobs_max,
    };
    let mn = match min {
        Some(m) => m,
        None => mx / 2,
    };
    (if mn > 1 {
        mn
    } else {
        1
    }, mx)
}

/// Longest lead, in milliseconds, by which an automatic heartbeat comes before the expiry:
/// half of it.
pub const AUTOHEARTBEAT_LEAD_CAP_MS: u64 = 30_000;

/// When the next automatic heartbeat is due: before `expires` by half of the heartbeat
/// increment, or by 15 s when the increment is longer than 30 s.
pub open spec fn autoheartbeat_at(expires: i64, increment: u64) -> int {
    let capped = if increment < AUTOHEARTBEAT_LEAD_CAP_MS { increment } else {
        AUTOHEARTBEAT_LEAD_CAP_MS
    };
    expires - capped / 2
}

/// How long to sleep from `now` before the next automatic heartbeat; zero when it is due.
pub fn autoheartbeat_delay(expires: i64, increment: u64, now: i64) -> (r: u64)
    ensures
        r == (if autoheartbeat_at(expires, increment) > now {
            autoheartbeat_at(expires, increment) - now
        } else {
            0
        }),
{
    let capped: u64 = if increment < AUTOHEARTBEAT_LEAD_CAP_MS {
        increment
    } else {
        AUTOHEARTBEAT_LEAD_CAP_MS
    };
    let due: i128 = expires as i128 - (capped / 2) as i128;
    if due > now as i128 {
        (due - now as i128) as u64
    } else {
        0
    }
}

/// How a job's function ended.
#[derive(Clone, Debug)]
pub enum JobOutcome {
    /// It returned success, with this JSON-encoded value.
    Returned(String),
    /// It returned this error.
    Errored(String),
    /// It panicked with this message.
    Panicked(String),
}

/// What the runner reports to the store once a job's function has ended.
#[derive(Clone, Debug)]
pub enum Report {
    /// Nothing: the job already completed or failed itself.
    Nothing,
    /// Complete the job with this JSON-encoded value.
    Complete(String),
    /// Fail the current try with this message.
    Fail(String),
}

/// The report for a job whose function ended with `outcome`. A job that completed or failed
/// itself keeps that outcome; otherwise a returned value completes it and an error or a
/// panic fails it with its message.
pub fn report_for(explicitly_finished: bool, outcome: JobOutcome) -> (r: Report)
    ensures
        explicitly_finished ==> r is Nothing,
        !explicitly_finished ==> match outcome {
            JobOutcome::Returned(v) => r matches Report::Complete(x) && x@ == v@,
            JobOutcome::Errored(m) => r matches Report::Fail(x) && x@ == m@,
            JobOutcome::Panicked(m) => r matches Report::Fail(x) && x@ == m@,
        },
{
    if explicitly_finished {
        Report::Nothing
    } else {
        match outcome {
            JobOutcome::Returned(v) => Report::Complete(v),
            JobOutcome::Errored(m) => Report::Fail(m),
            JobOutcome::Panicked(m) => Report::Fail(m),
        }
    }
}

} // verus!
