//! The job types that workers can run, and the workers that are listening for jobs.
use vstd::prelude::*;
use crate::job::{strings_view, JobModel};
use crate::store::JobStore;
use crate::table::{has_candidate, next_run_at_of, earlier};

verus! {

/// The settings of a job type. The function that runs jobs of the type is paired with the
/// definition where the jobs run.
#[derive(Clone, Debug)]
pub struct JobDef {
    /// The unique name of the job type.
    pub name: String,
    /// The weight that a worker running this type should have room for.
    pub weight: u16,
    /// Whether heartbeats are sent automatically while a job of this type runs.
    pub autoheartbeat: bool,
}

/// What a `JobDef` says.
pub struct JobDefModel {
    pub weight: u16,
    pub autoheartbeat: bool,
}

impl JobDef {
    pub open spec fn model(self) -> JobDefModel {
        JobDefModel { weight: self.weight, autoheartbeat: self.autoheartbeat }
    }

    /// A job type named `name`, of weight 1.
    pub fn new(name: String, autoheartbeat: bool) -> (r: JobDef)
        ensures
            r.name@ == name@,
            r.weight == 1,
            r.autoheartbeat == autoheartbeat,
    {
        JobDef { name, weight: 1, autoheartbeat }
    }

    /// A builder for a job type named `name`, of weight 1 and without automatic heartbeats.
    pub fn builder(name: String) -> (r: JobDefBuilder)
        ensures
            r.def.name@ == name@,
            r.def.weight == 1,
            !r.def.autoheartbeat,
    {
        JobDefBuilder { def: JobDef::new(name, false) }
    }
}

/// A builder for a `JobDef`.
#[derive(Clone, Debug)]
pub struct JobDefBuilder {
    pub def: JobDef,
}

impl JobDefBuilder {
    /// Sets whether heartbeats are sent automatically.
    pub fn autoheartbeat(self, autoheartbeat: bool) -> (r: JobDefBuilder)
        ensures
            r.def.name@ == self.def.name@,
            r.def.weight == self.def.weight,
            r.def.autoheartbeat == autoheartbeat,
    {
        JobDefBuilder { def: JobDef { autoheartbeat, ..self.def } }
    }

    /// Sets the weight, which is positive.
    pub fn weight(self, weight: u16) -> (r: JobDefBuilder)
        requires
            weight >= 1,
        ensures
            r.def.name@ == self.def.name@,
            r.def.weight == weight,
            r.def.autoheartbeat == self.def.autoheartbeat,
    {
        JobDefBuilder { def: JobDef { weight, ..self.def } }
    }

    /// The definition.
    pub fn build(self) -> (r: JobDef)
        ensures
            r.name@ == self.def.name@,
            r.weight == self.def.weight,
            r.autoheartbeat == self.def.autoheartbeat,
    {
        self.def
    }
}

/// The job types of `defs` by name; where two share a name, the later one counts.
pub open spec fn defs_map(defs: Seq<JobDef>) -> Map<Seq<char>, JobDefModel>
    decreases defs.len(),
{
    if defs.len() == 0 {
        Map::empty()
    } else {
        defs_map(defs.drop_last()).insert(defs.last().name@, defs.last().model())
    }
}

/// The job types that workers can run, each under a unique name.
pub struct JobRegistry {
    jobs: Vec<JobDef>,
}

impl View for JobRegistry {
    type V = Map<Seq<char>, JobDefModel>;

    closed spec fn view(&self) -> Map<Seq<char>, JobDefModel> {
        defs_map(self.jobs@)
    }
}

impl JobRegistry {
    /// The names are unique.
    pub closed spec fn wf(&self) -> bool {
        forall|i: int, j: int|
            0 <= i < j < self.jobs@.len() ==> (#[trigger] self.jobs@[i]).name@
                != (#[trigger] self.jobs@[j]).name@
    }

    proof fn lemma_unique_map(defs: Seq<JobDef>)
        requires
            forall|i: int, j: int|
                0 <= i < j < defs.len() ==> (#[trigger] defs[i]).name@ != (#[trigger] defs[j]).name@,
        ensures
            forall|i: int|
                0 <= i < defs.len() ==> defs_map(defs).contains_key((#[trigger] defs[i]).name@)
                    && defs_map(defs)[defs[i].name@] == defs[i].model(),
            forall|n: Seq<char>|
                defs_map(defs).contains_key(n) ==> exists|i: int|
                    0 <= i < defs.len() && (#[trigger] defs[i]).name@ == n,
        decreases defs.len(),
    {
        if defs.len() > 0 {
            let d = defs.drop_last();
            Self::lemma_unique_map(d);
            assert(defs_map(defs) == defs_map(d).insert(defs.last().name@, defs.last().model()));
            assert forall|i: int| 0 <= i < defs.len() implies defs_map(defs).contains_key(
                (#[trigger] defs[i]).name@,
            ) && defs_map(defs)[defs[i].name@] == defs[i].model() by {
                if i < d.len() {
                    assert(d[i] == defs[i]);
                    assert(defs[i].name@ != defs.last().name@);
                }
            }
            assert forall|n: Seq<char>| defs_map(defs).contains_key(n) implies exists|i: int|
                0 <= i < defs.len() && (#[trigger] defs[i]).name@ == n by {
                if n != defs.last().name@ {
                    assert(defs_map(d).contains_key(n));
                    let i = choose|i: int| 0 <= i < d.len() && (#[trigger] d[i]).name@ == n;
                    assert(defs[i] == d[i]);
                } else {
                    assert(defs[defs.len() - 1].name@ == n);
                }
            }
        }
    }

    /// The index of the definition named `name`.
    fn find(&self, name: &String) -> (r: Option<usize>)
        requires
            self.wf(),
        ensures
            match r {
                Some(i) => i < self.jobs@.len() && self.jobs@[i as int].name@ == name@
                    && self@.contains_key(name@) && self@[name@] == self.jobs@[i as int].model(),
                None => !self@.contains_key(name@),
            },
    {
        let mut i: usize = 0;
        while i < self.jobs.len()
            invariant
                self.wf(),
                i <= self.jobs@.len(),
                forall|k: int| 0 <= k < i ==> (#[trigger] self.jobs@[k]).name@ != name@,
            decreases self.jobs@.len() - i,
        {
            if self.jobs[i].name == *name {
                proof {
                    Self::lemma_unique_map(self.jobs@);
                    assert(self.jobs@[i as int].name@ == name@);
                }
                return Some(i);
            }
            i += 1;
        }
        proof {
            Self::lemma_unique_map(self.jobs@);
        }
        None
    }

    /// A registry of the job types `defs`; where two share a name, the later one counts.
    pub fn new(defs: Vec<JobDef>) -> (r: JobRegistry)
        ensures
            r.wf(),
            r@ == defs_map(defs@),
    {
        let mut r = JobRegistry { jobs: Vec::new() };
        let mut i: usize = 0;
        while i < defs.len()
            invariant
                i <= defs@.len(),
                r.wf(),
                r@ == defs_map(defs@.subrange(0, i as int)),
            decreases defs@.len() - i,
        {
            assert(defs@.subrange(0, i + 1).drop_last() =~= defs@.subrange(0, i as int));
            let def = JobDef {
                name: defs[i].name.clone(),
                weight: defs[i].weight,
                autoheartbeat: defs[i].autoheartbeat,
            };
            assert(def.model() == defs@[i as int].model());
            r.put(def);
            i += 1;
        }
        assert(defs@.subrange(0, defs@.len() as int) =~= defs@);
        r
    }

    /// Sets the definition named `def.name` to `def`.
    fn put(&mut self, def: JobDef)
        requires
            old(self).wf(),
        ensures
            final(self).wf(),
            final(self)@ == old(self)@.insert(def.name@, def.model()),
    {
        proof {
            Self::lemma_unique_map(self.jobs@);
        }
        match self.find(&def.name) {
            Some(i) => {
                let ghost n = def.name@;
                let ghost m = def.model();
                self.jobs.set(i, def);
                proof {
                    Self::lemma_unique_map(self.jobs@);
                    Self::lemma_unique_map(old(self).jobs@);
                    assert(self@ =~= old(self)@.insert(n, m)) by {
                        assert forall|k: Seq<char>| #[trigger] self@.contains_key(k) implies old(self)@.insert(n, m).contains_key(k) && self@[k] == old(self)@.insert(n, m)[k] by {
                            let j = choose|j: int| 0 <= j < self.jobs@.len() && (#[trigger] self.jobs@[j]).name@ == k;
                            if j != i {
                                assert(self.jobs@[j] == old(self).jobs@[j]);
                            }
                        }
                        assert forall|k: Seq<char>| #[trigger] old(self)@.insert(n, m).contains_key(k) implies self@.contains_key(k) by {
                            if k != n {
                                let j = choose|j: int| 0 <= j < old(self).jobs@.len() && (#[trigger] old(self).jobs@[j]).name@ == k;
                                assert(self.jobs@[j] == old(self).jobs@[j]);
                            } else {
                                assert(self.jobs@[i as int].name@ == n);
                            }
                        }
                    }
                }
            },
            None => {
                self.jobs.push(def);
                proof {
                    assert(self.jobs@.drop_last() =~= old(self).jobs@);
                }
            },
        }
    }

    /// Adds `def`, whose name must be new.
    pub fn add(&mut self, def: JobDef)
        requires
            old(self).wf(),
            !old(self)@.contains_key(def.name@),
        ensures
            final(self).wf(),
            final(self)@ == old(self)@.insert(def.name@, def.model()),
    {
        self.put(def);
    }

    /// Whether a job type is named `name`.
    pub fn contains(&self, name: &String) -> (r: bool)
        requires
            self.wf(),
        ensures
            r == self@.contains_key(name@),
    {
        self.find(name).is_some()
    }

    /// The weight of the job type named `name`, or 1 if there is none.
    pub fn weight_of(&self, name: &String) -> (r: u16)
        requires
            self.wf(),
        ensures
            r == (if self@.contains_key(name@) { self@[name@].weight } else { 1 }),
    {
        match self.find(name) {
            Some(i) => self.jobs[i].weight,
            None => 1,
        }
    }

    /// Whether jobs of the type named `name` send heartbeats automatically.
    pub fn autoheartbeat_of(&self, name: &String) -> (r: bool)
        requires
            self.wf(),
        ensures
            r == (self@.contains_key(name@) && self@[name@].autoheartbeat),
    {
        match self.find(name) {
            Some(i) => self.jobs[i].autoheartbeat,
            None => false,
        }
    }

    /// The names of all job types, each once.
    pub fn names(&self) -> (r: Vec<String>)
        requires
            self.wf(),
        ensures
            forall|n: Seq<char>| self@.contains_key(n) <==> strings_view(r@).contains(n),
            r@.len() == self@.len(),
    {
        proof {
            Self::lemma_unique_map(self.jobs@);
        }
        let mut r: Vec<String> = Vec::new();
        let mut i: usize = 0;
        while i < self.jobs.len()
            invariant
                i <= self.jobs@.len(),
                r@.len() == i,
                forall|k: int| 0 <= k < i ==> (#[trigger] r@[k])@ == self.jobs@[k].name@,
            decreases self.jobs@.len() - i,
        {
            r.push(self.jobs[i].name.clone());
            i += 1;
        }
        assert forall|n: Seq<char>| self@.contains_key(n) <==> strings_view(r@).contains(n) by {
            if self@.contains_key(n) {
                let j = choose|j: int| 0 <= j < self.jobs@.len() && (#[trigger] self.jobs@[j]).name@ == n;
                assert(strings_view(r@)[j] == n);
            }
            if strings_view(r@).contains(n) {
                let j = choose|j: int| 0 <= j < r@.len() && strings_view(r@)[j] == n;
                assert(self.jobs@[j].name@ == n);
            }
        }
        proof {
            Self::lemma_unique_len(self.jobs@);
        }
        r
    }

    /// The job types that a worker runs: all of them when `requested` is empty, else
    /// `requested` in its order. Each requested type must be registered.
    pub fn worker_job_types(&self, requested: &Vec<String>) -> (r: Vec<String>)
        requires
            self.wf(),
            forall|k: int|
                0 <= k < requested@.len() ==> self@.contains_key((#[trigger] requested@[k])@),
        ensures
            requested@.len() == 0 ==> forall|n: Seq<char>|
                self@.contains_key(n) <==> strings_view(r@).contains(n),
            requested@.len() > 0 ==> strings_view(r@) == strings_view(requested@),
    {
        if requested.len() == 0 {
            return self.names();
        }
        let mut r: Vec<String> = Vec::new();
        let mut i: usize = 0;
        while i < requested.len()
            invariant
                i <= requested@.len(),
                r@.len() == i,
                forall|k: int| 0 <= k < i ==> (#[trigger] r@[k])@ == requested@[k]@,
            decreases requested@.len() - i,
        {
            r.push(requested[i].clone());
            i += 1;
        }
        assert(strings_view(r@) =~= strings_view(requested@));
        r
    }

    /// The weight of each of `types`, 1 for a type that is not registered.
    pub fn weights_of(&self, types: &Vec<String>) -> (r: Vec<u16>)
        requires
            self.wf(),
        ensures
            r@.len() == types@.len(),
            forall|k: int|
                0 <= k < types@.len() ==> #[trigger] r@[k] == (if self@.contains_key(types@[k]@) {
                    self@[types@[k]@].weight
                } else {
                    1
                }),
    {
        let mut r: Vec<u16> = Vec::new();
        let mut i: usize = 0;
        while i < types.len()
            invariant
                self.wf(),
                i <= types@.len(),
                r@.len() == i,
                forall|k: int|
                    0 <= k < i ==> #[trigger] r@[k] == (if self@.contains_key(types@[k]@) {
                        self@[types@[k]@].weight
                    } else {
                        1
                    }),
            decreases types@.len() - i,
        {
            r.push(self.weight_of(&types[i]));
            i += 1;
        }
        r
    }

    proof fn lemma_unique_len(defs: Seq<JobDef>)
        requires
            forall|i: int, j: int|
                0 <= i < j < defs.len() ==> (#[trigger] defs[i]).name@ != (#[trigger] defs[j]).name@,
        ensures
            defs_map(defs).dom().finite(),
            defs_map(defs).len() == defs.len(),
        decreases defs.len(),
    {
        if defs.len() > 0 {
            let d = defs.drop_last();
            Self::lemma_unique_len(d);
            Self::lemma_unique_map(d);
            if defs_map(d).contains_key(defs.last().name@) {
                let i = choose|i: int| 0 <= i < d.len() && (#[trigger] d[i]).name@ == defs.last().name@;
                assert(defs[i] == d[i]);
            }
        }
    }
}

/// A worker that listens for ready jobs of its types.
#[derive(Clone, Debug)]
pub struct ListeningWorker {
    pub id: u64,
    pub job_types: Vec<String>,
}

/// What a `ListeningWorker` means: its id and its job types.
pub open spec fn worker_view(w: ListeningWorker) -> (u64, Seq<Seq<char>>) {
    (w.id, strings_view(w.job_types@))
}

/// The ids of the workers of `ws` that have a job to claim at `now`, in order.
pub open spec fn workers_with_ready_jobs(
    ws: Seq<(u64, Seq<Seq<char>>)>,
    s: Seq<JobModel>,
    now: i64,
) -> Seq<u64>
    decreases ws.len(),
{
    if ws.len() == 0 {
        Seq::empty()
    } else if has_candidate(s, ws.last().1, now) {
        workers_with_ready_jobs(ws.drop_last(), s, now).push(ws.last().0)
    } else {
        workers_with_ready_jobs(ws.drop_last(), s, now)
    }
}

/// The earliest instant after `now` at which a job that one of `ws` accepts becomes ready.
pub open spec fn next_wakeup_of(ws: Seq<(u64, Seq<Seq<char>>)>, s: Seq<JobModel>, now: i64) -> Option<
    i64,
>
    decreases ws.len(),
{
    if ws.len() == 0 {
        None
    } else {
        earlier(next_wakeup_of(ws.drop_last(), s, now), next_run_at_of(s, ws.last().1, now))
    }
}

/// The live workers, in the order in which they registered, each under a unique id.
pub struct WorkerList {
    workers: Vec<ListeningWorker>,
    next_id: u64,
}

impl View for WorkerList {
    type V = Seq<(u64, Seq<Seq<char>>)>;

    closed spec fn view(&self) -> Seq<(u64, Seq<Seq<char>>)> {
        self.workers@.map_values(|w: ListeningWorker| worker_view(w))
    }
}

impl WorkerList {
    /// The id that the next worker gets.
    pub closed spec fn next_worker_id(&self) -> u64 {
        self.next_id
    }

    /// Ids grow along the list and stay below `next_worker_id`.
    pub closed spec fn wf(&self) -> bool {
        &&& forall|i: int, j: int|
            0 <= i < j < self@.len() ==> (#[trigger] self@[i]).0 < (#[trigger] self@[j]).0
        &&& forall|i: int| 0 <= i < self@.len() ==> (#[trigger] self@[i]).0 < self.next_id
    }

    /// No workers yet.
    pub fn new() -> (r: WorkerList)
        ensures
            r.wf(),
            r@ == Seq::<(u64, Seq<Seq<char>>)>::empty(),
            r.next_worker_id() == 1,
    {
        let r = WorkerList { workers: Vec::new(), next_id: 1 };
        assert(r@ =~= Seq::<(u64, Seq<Seq<char>>)>::empty());
        r
    }

    /// How many workers are listening.
    pub fn len(&self) -> (r: usize)
        ensures
            r == self@.len(),
    {
        self.workers.len()
    }

    /// Whether another worker can get an id.
    pub fn has_room(&self) -> (r: bool)
        ensures
            r == (self.next_worker_id() < u64::MAX),
    {
        self.next_id < u64::MAX
    }

    /// Registers a worker that runs `job_types` and returns its new id.
    pub fn add_worker(&mut self, job_types: Vec<String>) -> (r: u64)
        requires
            old(self).wf(),
            old(self).next_worker_id() < u64::MAX,
        ensures
            final(self).wf(),
            r == old(self).next_worker_id(),
            forall|i: int| 0 <= i < old(self)@.len() ==> (#[trigger] old(self)@[i]).0 < r,
            final(self).next_worker_id() == r + 1,
            final(self)@ == old(self)@.push((r, strings_view(job_types@))),
    {
        let id = self.next_id;
        let w = ListeningWorker { id, job_types };
        self.workers.push(w);
        self.next_id = id + 1;
        assert(self@ =~= old(self)@.push((id, strings_view(w.job_types@))));
        id
    }

    /// Removes the worker with id `id`. Returns whether there was one.
    pub fn remove_worker(&mut self, id: u64) -> (r: bool)
        requires
            old(self).wf(),
        ensures
            final(self).wf(),
            final(self).next_worker_id() == old(self).next_worker_id(),
            r == exists|i: int| 0 <= i < old(self)@.len() && (#[trigger] old(self)@[i]).0 == id,
            r ==> exists|i: int|
                0 <= i < old(self)@.len() && (#[trigger] old(self)@[i]).0 == id && final(self)@
                    == old(self)@.remove(i),
            !r ==> final(self)@ == old(self)@,
    {
        let mut i: usize = 0;
        while i < self.workers.len()
            invariant
                self.wf(),
                *self == *old(self),
                i <= self@.len(),
                self.workers@.len() == self@.len(),
                forall|k: int| 0 <= k < i ==> (#[trigger] self@[k]).0 != id,
            decreases self@.len() - i,
        {
            assert(self@[i as int].0 == self.workers@[i as int].id);
            if self.workers[i].id == id {
                self.workers.remove(i);
                assert(self@ =~= old(self)@.remove(i as int));
                return true;
            }
            i += 1;
        }
        false
    }

    /// The ids of the workers that have a job to claim at `now`, which the pending-jobs
    /// monitor wakes.
    pub fn workers_to_wake(&self, store: &JobStore, now: i64) -> (r: Vec<u64>)
        ensures
            r@ == workers_with_ready_jobs(self@, store@, now),
    {
        let mut r: Vec<u64> = Vec::new();
        let mut i: usize = 0;
        while i < self.workers.len()
            invariant
                i <= self@.len(),
                self.workers@.len() == self@.len(),
                r@ == workers_with_ready_jobs(self@.subrange(0, i as int), store@, now),
            decreases self@.len() - i,
        {
            assert(self@.subrange(0, i + 1).drop_last() =~= self@.subrange(0, i as int));
            assert(self@[i as int] == worker_view(self.workers@[i as int]));
            if store.has_ready_job(&self.workers[i].job_types, now) {
                r.push(self.workers[i].id);
            }
            i += 1;
        }
        assert(self@.subrange(0, self@.len() as int) =~= self@);
        r
    }

    /// The earliest instant after `now` at which a job that some worker runs becomes ready,
    /// when the pending-jobs monitor wakes next.
    pub fn next_wakeup(&self, store: &JobStore, now: i64) -> (r: Option<i64>)
        ensures
            r == next_wakeup_of(self@, store@, now),
    {
        let mut r: Option<i64> = None;
        let mut i: usize = 0;
        while i < self.workers.len()
            invariant
                i <= self@.len(),
                self.workers@.len() == self@.len(),
                r == next_wakeup_of(self@.subrange(0, i as int), store@, now),
            decreases self@.len() - i,
        {
            assert(self@.subrange(0, i + 1).drop_last() =~= self@.subrange(0, i as int));
            assert(self@[i as int] == worker_view(self.workers@[i as int]));
            let t = store.next_run_at(&self.workers[i].job_types, now);
            r = match (r, t) {
                (Some(x), Some(y)) => Some(if x <= y { x } else { y }),
                (Some(x), None) => Some(x),
                (None, _) => t,
            };
            i += 1;
        }
        assert(self@.subrange(0, self@.len() as int) =~= self@);
        r
    }
}

} // verus!
