//! The in-memory job queue: enqueue/claim/complete lifecycle with strict
//! FIFO claim order and single-delivery semantics.
use vstd::prelude::*;
use vstd::pervasive::VecAdditionalExecFns;

verus! {

/// Lifecycle state of a job.
#[derive(Clone, Copy, Debug, PartialEq, Eq, Structural)]
pub enum JobStatus {
    Pending,
    Claimed,
    Running,
    Completed,
    Failed,
    Cancelled,
}

impl JobStatus {
    /// A terminal status: no further transition leaves it.
    pub open spec fn is_terminal(self) -> bool {
        self == JobStatus::Completed || self == JobStatus::Failed || self == JobStatus::Cancelled
    }

    /// A status in which the job is held by a claimant.
    pub open spec fn is_held(self) -> bool {
        self == JobStatus::Claimed || self == JobStatus::Running
    }

    pub fn terminal(&self) -> (r: bool)
        ensures
            r == self.is_terminal(),
    {
        match self {
            JobStatus::Completed => true,
            JobStatus::Failed => true,
            JobStatus::Cancelled => true,
            _ => false,
        }
    }

    pub fn held(&self) -> (r: bool)
        ensures
            r == self.is_held(),
    {
        match self {
            JobStatus::Claimed => true,
            JobStatus::Running => true,
            _ => false,
        }
    }
}

/// One legal move of the job state machine: Pending -> Claimed -> Running ->
/// {Completed, Failed}, completion allowed straight from Claimed, and a jump
/// to Cancelled from any non-terminal status.
pub open spec fn legal_step(a: JobStatus, b: JobStatus) -> bool {
    ||| (a == JobStatus::Pending && b == JobStatus::Claimed)
    ||| (a == JobStatus::Claimed && b == JobStatus::Running)
    ||| (a.is_held() && (b == JobStatus::Completed || b == JobStatus::Failed))
    ||| (!a.is_terminal() && b == JobStatus::Cancelled)
}

/// A status history is legal when it starts Pending and every move either
/// stays put or takes one legal step.
pub open spec fn legal_history(h: Seq<JobStatus>) -> bool {
    &&& h.len() > 0 ==> h[0] == JobStatus::Pending
    &&& forall|i: int|
        0 <= i < h.len() - 1 ==> (#[trigger] h[i] == h[i + 1] || legal_step(h[i], h[i + 1]))
}

/// Every prefix of a legal status history is itself a legal history.
pub proof fn lemma_legal_history_prefix(h: Seq<JobStatus>, k: int)
    requires
        legal_history(h),
        0 <= k <= h.len(),
    ensures
        legal_history(h.take(k)),
{
    assert forall|i: int| 0 <= i < k - 1 implies (#[trigger] h.take(k)[i] == h.take(k)[i + 1]
        || legal_step(h.take(k)[i], h.take(k)[i + 1])) by {
        assert(h.take(k)[i] == h[i]);
        assert(h.take(k)[i + 1] == h[i + 1]);
    }
}

/// Errors of the queue operations.
#[derive(Clone, Copy, Debug, PartialEq, Eq, Structural)]
pub enum QueueError {
    /// The job id is unknown.
    NotFound,
    /// The requested change is not a legal step from the job's current status.
    InvalidTransition,
    /// An internal fault: a freshly drawn id collided with a live one.
    Internal,
}

/// A scheduled unit of work.
pub struct Job {
    pub id: u128,
    pub name: String,
    pub input: Vec<u8>,
    pub output: Vec<u8>,
    pub status: JobStatus,
    pub claimant: Option<u128>,
    pub enqueued_at: u64,
    pub claimed_at: Option<u64>,
    pub completed_at: Option<u64>,
    pub activity_at: Option<u64>,
}

/// Mathematical image of a `Job`.
pub struct JobModel {
    pub id: u128,
    pub name: Seq<char>,
    pub input: Seq<u8>,
    pub output: Seq<u8>,
    pub status: JobStatus,
    pub claimant: Option<u128>,
    pub enqueued_at: u64,
    pub claimed_at: Option<u64>,
    pub completed_at: Option<u64>,
    pub activity_at: Option<u64>,
}

impl View for Job {
    type V = JobModel;

    open spec fn view(&self) -> JobModel {
        JobModel {
            id: self.id,
            name: self.name@,
            input: self.input@,
            output: self.output@,
            status: self.status,
            claimant: self.claimant,
            enqueued_at: self.enqueued_at,
            claimed_at: self.claimed_at,
            completed_at: self.completed_at,
            activity_at: self.activity_at,
        }
    }
}

/// Some job in `jobs` carries the id.
pub open spec fn has_job(jobs: Seq<JobModel>, id: u128) -> bool {
    exists|i: int| 0 <= i < jobs.len() && #[trigger] jobs[i].id == id
}

/// The index of the job carrying `id`; meaningful only under `has_job` and
/// unique ids.
pub open spec fn job_index(jobs: Seq<JobModel>, id: u128) -> int {
    choose|i: int| 0 <= i < jobs.len() && #[trigger] jobs[i].id == id
}

/// Mathematical image of the whole queue.
pub struct QueueModel {
    pub pending: Seq<u128>,
    pub jobs: Seq<JobModel>,
}

/// No two jobs carry the same id.
pub open spec fn ids_unique(jobs: Seq<JobModel>) -> bool {
    forall|i: int, j: int|
        0 <= i < j < jobs.len() ==> #[trigger] jobs[i].id != #[trigger] jobs[j].id
}

/// No id appears twice in the pending list.
pub open spec fn pending_unique(pending: Seq<u128>) -> bool {
    forall|i: int, j: int|
        0 <= i < j < pending.len() ==> #[trigger] pending[i] != #[trigger] pending[j]
}

/// A job's status is Pending exactly when its id sits in the pending list,
/// and every pending entry names a live job.
pub open spec fn pending_matches(m: QueueModel) -> bool {
    &&& forall|j: int|
        0 <= j < m.jobs.len() ==> ((#[trigger] m.jobs[j].status == JobStatus::Pending)
            <==> m.pending.contains(m.jobs[j].id))
    &&& forall|i: int| 0 <= i < m.pending.len() ==> has_job(m.jobs, #[trigger] m.pending[i])
}

/// A claimant is recorded only while a job is held.
pub open spec fn claimant_held(jobs: Seq<JobModel>) -> bool {
    forall|j: int|
        0 <= j < jobs.len() ==> ((#[trigger] jobs[j].claimant) is Some
            ==> jobs[j].status.is_held())
}

/// Output bytes appear only once a job has completed or failed.
pub open spec fn output_on_completion(jobs: Seq<JobModel>) -> bool {
    forall|j: int|
        0 <= j < jobs.len() ==> (!((#[trigger] jobs[j].status) == JobStatus::Completed
            || jobs[j].status == JobStatus::Failed) ==> jobs[j].output.len() == 0)
}

/// The queue's well-formedness: unique ids, unique pending entries, a job is
/// Pending exactly when its id sits in `pending`, a claimant is recorded only
/// while a job is held, and output appears only with completion.
pub open spec fn wf_model(m: QueueModel) -> bool {
    &&& ids_unique(m.jobs)
    &&& pending_unique(m.pending)
    &&& pending_matches(m)
    &&& claimant_held(m.jobs)
    &&& output_on_completion(m.jobs)
}

/// With unique ids, `job_index` names the one position holding a given id.
pub proof fn lemma_job_index_of(jobs: Seq<JobModel>, i: int)
    requires
        ids_unique(jobs),
        0 <= i < jobs.len(),
    ensures
        job_index(jobs, jobs[i].id) == i,
{
    assert(has_job(jobs, jobs[i].id));
    let k = job_index(jobs, jobs[i].id);
    assert(0 <= k < jobs.len() && jobs[k].id == jobs[i].id);
    if k < i {
        assert(jobs[k].id != jobs[i].id);
    } else if i < k {
        assert(jobs[i].id != jobs[k].id);
    }
}

/// The in-memory FIFO job queue.
pub struct JobQueue {
    pending: Vec<u128>,
    jobs: Vec<Job>,
}

impl View for JobQueue {
    type V = QueueModel;

    closed spec fn view(&self) -> QueueModel {
        QueueModel { pending: self.pending@.map_values(|p: u128| p), jobs: self.jobs@.map_values(|j: Job| j@) }
    }
}

impl JobQueue {
    pub open spec fn wf(self) -> bool {
        wf_model(self@)
    }

    /// A fresh, empty queue.
    pub fn new() -> (q: JobQueue)
        ensures
            q.wf(),
            q@.pending.len() == 0,
            q@.jobs.len() == 0,
    {
        JobQueue { pending: Vec::new(), jobs: Vec::new() }
    }

    /// Index of the job carrying `id`, if any.
    fn find_index(&self, id: u128) -> (r: Option<usize>)
        ensures
            match r {
                Some(i) => i < self@.jobs.len() && self@.jobs[i as int].id == id,
                None => !has_job(self@.jobs, id),
            },
    {
        let mut i: usize = 0;
        while i < self.jobs.len()
            invariant
                i <= self@.jobs.len(),
                forall|j: int| 0 <= j < i ==> #[trigger] self@.jobs[j].id != id,
            decreases self@.jobs.len() - i,
        {
            if self.jobs[i].id == id {
                return Some(i);
            }
            i += 1;
        }
        None
    }
}

/// The model of a job as `enqueue` creates it.
pub open spec fn fresh_job(id: u128, name: Seq<char>, input: Seq<u8>, now: u64) -> JobModel {
    JobModel {
        id,
        name,
        input,
        output: Seq::empty(),
        status: JobStatus::Pending,
        claimant: None,
        enqueued_at: now,
        claimed_at: None,
        completed_at: None,
        activity_at: None,
    }
}

/// The model after enqueueing a job with a fresh id.
pub open spec fn enqueue_step(m: QueueModel, id: u128, name: Seq<char>, input: Seq<u8>, now: u64) -> QueueModel {
    QueueModel { pending: m.pending.push(id), jobs: m.jobs.push(fresh_job(id, name, input, now)) }
}

/// Enqueueing under a fresh id preserves the queue's well-formedness.
pub proof fn lemma_enqueue_wf(m: QueueModel, id: u128, name: Seq<char>, input: Seq<u8>, now: u64)
    requires
        wf_model(m),
        !has_job(m.jobs, id),
    ensures
        wf_model(enqueue_step(m, id, name, input, now)),
{
    let m2 = enqueue_step(m, id, name, input, now);
    let n = m.jobs.len() as int;
    let p = m.pending.len() as int;
    assert forall|i: int, j: int| 0 <= i < j < m2.jobs.len() implies #[trigger] m2.jobs[i].id
        != #[trigger] m2.jobs[j].id by {
        if j < n {
            assert(m2.jobs[i] == m.jobs[i] && m2.jobs[j] == m.jobs[j]);
        } else {
            assert(m2.jobs[j].id == id);
            assert(m2.jobs[i] == m.jobs[i]);
            if m.jobs[i].id == id {
                assert(has_job(m.jobs, id));
            }
        }
    }
    assert forall|i: int, j: int| 0 <= i < j < m2.pending.len() implies #[trigger] m2.pending[i]
        != #[trigger] m2.pending[j] by {
        if j < p {
            assert(m2.pending[i] == m.pending[i] && m2.pending[j] == m.pending[j]);
        } else {
            assert(m2.pending[j] == id);
            assert(m2.pending[i] == m.pending[i]);
            if m.pending[i] == id {
                assert(has_job(m.jobs, m.pending[i]));
                let w = choose|w: int| 0 <= w < m.jobs.len() && #[trigger] m.jobs[w].id == id;
                assert(has_job(m.jobs, id));
            }
        }
    }
    assert forall|j: int| 0 <= j < m2.jobs.len() implies ((#[trigger] m2.jobs[j].status
        == JobStatus::Pending) <==> m2.pending.contains(m2.jobs[j].id)) by {
        if j < n {
            assert(m2.jobs[j] == m.jobs[j]);
            if m.jobs[j].status == JobStatus::Pending {
                let w = choose|w: int| 0 <= w < m.pending.len() && m.pending[w] == m.jobs[j].id;
                assert(m.pending.contains(m.jobs[j].id));
                assert(m2.pending[w] == m.jobs[j].id);
                assert(m2.pending.contains(m2.jobs[j].id));
            }
            if m2.pending.contains(m2.jobs[j].id) {
                let w = choose|w: int| 0 <= w < m2.pending.len() && m2.pending[w] == m.jobs[j].id;
                if w < p {
                    assert(m.pending[w] == m.jobs[j].id);
                    assert(m.pending.contains(m.jobs[j].id));
                } else {
                    assert(m.jobs[j].id == id);
                    assert(has_job(m.jobs, id));
                }
            }
        } else {
            assert(m2.jobs[j] == fresh_job(id, name, input, now));
            assert(m2.pending[p] == id);
            assert(m2.pending.contains(id));
        }
    }
    assert forall|i: int| 0 <= i < m2.pending.len() implies has_job(m2.jobs, #[trigger] m2.pending[i]) by {
        if i < p {
            assert(m2.pending[i] == m.pending[i]);
            assert(has_job(m.jobs, m.pending[i]));
            let w = choose|w: int| 0 <= w < m.jobs.len() && #[trigger] m.jobs[w].id == m.pending[i];
            assert(m2.jobs[w].id == m.pending[i]);
        } else {
            assert(m2.jobs[n].id == id);
        }
    }
    assert forall|j: int| 0 <= j < m2.jobs.len() implies ((#[trigger] m2.jobs[j].claimant) is Some
        ==> m2.jobs[j].status.is_held()) by {
        if j < n {
            assert(m2.jobs[j] == m.jobs[j]);
        }
    }
    assert forall|j: int| 0 <= j < m2.jobs.len() implies (!((#[trigger] m2.jobs[j].status)
        == JobStatus::Completed || m2.jobs[j].status == JobStatus::Failed)
        ==> m2.jobs[j].output.len() == 0) by {
        if j < n {
            assert(m2.jobs[j] == m.jobs[j]);
        }
    }
}

/// Byte-for-byte copy of a payload.
fn clone_bytes(v: &Vec<u8>) -> (r: Vec<u8>)
    ensures
        r@ == v@,
{
    let mut r: Vec<u8> = Vec::new();
    let mut i: usize = 0;
    while i < v.len()
        invariant
            i <= v@.len(),
            r@ == v@.subrange(0, i as int),
        decreases v@.len() - i,
    {
        r.push(v[i]);
        proof {
            assert(v@.subrange(0, (i + 1) as int) =~= v@.subrange(0, i as int).push(v@[i as int]));
        }
        i += 1;
    }
    proof {
        assert(v@.subrange(0, v@.len() as int) =~= v@);
    }
    r
}

/// Relies on uuid's `Uuid::new_v4`: a randomly drawn 128-bit identifier.
/// Nothing is promised of the value.
#[verifier::external_body]
fn draw_job_id() -> u128 {
    uuid::Uuid::new_v4().as_u128()
}

impl JobQueue {
    /// Enqueue a job under a caller-chosen id. Succeeds exactly when the id
    /// is not already present; the job starts Pending at the tail of the
    /// pending list.
    pub fn enqueue_with_id(&mut self, id: u128, name: String, input: Vec<u8>, now: u64) -> (r: Result<(), QueueError>)
        requires
            old(self).wf(),
        ensures
            final(self).wf(),
            has_job(old(self)@.jobs, id) ==> r == Err::<(), QueueError>(QueueError::Internal)
                && final(self)@ == old(self)@,
            !has_job(old(self)@.jobs, id) ==> r == Ok::<(), QueueError>(())
                && final(self)@ == enqueue_step(old(self)@, id, name@, input@, now),
    {
        match self.find_index(id) {
            Some(_) => Err(QueueError::Internal),
            None => {
                let ghost m = self@;
                let job = Job {
                    id,
                    name,
                    input,
                    output: Vec::new(),
                    status: JobStatus::Pending,
                    claimant: None,
                    enqueued_at: now,
                    claimed_at: None,
                    completed_at: None,
                    activity_at: None,
                };
                proof {
                    lemma_enqueue_wf(m, id, job@.name, job@.input, now);
                }
                self.jobs.push(job);
                self.pending.push(id);
                proof {
                    assert(self@.jobs =~= m.jobs.push(fresh_job(id, job@.name, job@.input, now)));
                    assert(self@.pending =~= m.pending.push(id));
                }
                Ok(())
            },
        }
    }

    /// Enqueue a job under a freshly drawn random id. On an empty queue it
    /// always succeeds; an `Err` is exactly `Internal`, comes only of the
    /// drawn id colliding with a live job, and leaves the queue unchanged.
    pub fn enqueue(&mut self, name: String, input: Vec<u8>, now: u64) -> (r: Result<u128, QueueError>)
        requires
            old(self).wf(),
        ensures
            final(self).wf(),
            r matches Ok(id) ==> !has_job(old(self)@.jobs, id)
                && final(self)@ == enqueue_step(old(self)@, id, name@, input@, now),
            r is Err ==> r == Err::<u128, QueueError>(QueueError::Internal)
                && old(self)@.jobs.len() > 0 && final(self)@ == old(self)@,
    {
        let id = draw_job_id();
        match self.enqueue_with_id(id, name, input, now) {
            Ok(()) => Ok(id),
            Err(e) => {
                proof {
                    assert(has_job(old(self)@.jobs, id));
                    let w = choose|i: int|
                        0 <= i < old(self)@.jobs.len() && #[trigger] old(self)@.jobs[i].id == id;
                    assert(old(self)@.jobs.len() > 0);
                }
                Err(e)
            },
        }
    }
}


/// The model of a job as `claim` stamps it.
pub open spec fn claimed_job(j: JobModel, claimant: Option<u128>, now: u64) -> JobModel {
    JobModel {
        id: j.id,
        name: j.name,
        input: j.input,
        output: j.output,
        status: JobStatus::Claimed,
        claimant,
        enqueued_at: j.enqueued_at,
        claimed_at: Some(now),
        completed_at: j.completed_at,
        activity_at: Some(now),
    }
}

/// One claim over the model: the head of `pending` leaves the list and its
/// job becomes Claimed; an empty list changes nothing.
pub open spec fn claim_step(m: QueueModel, claimant: Option<u128>, now: u64) -> (QueueModel, Option<u128>) {
    if m.pending.len() == 0 {
        (m, None)
    } else {
        let id = m.pending[0];
        let i = job_index(m.jobs, id);
        (
            QueueModel {
                pending: m.pending.drop_first(),
                jobs: m.jobs.update(i, claimed_job(m.jobs[i], claimant, now)),
            },
            Some(id),
        )
    }
}

/// A claim preserves the queue's well-formedness.
pub proof fn lemma_claim_wf(m: QueueModel, claimant: Option<u128>, now: u64)
    requires
        wf_model(m),
    ensures
        wf_model(claim_step(m, claimant, now).0),
        m.pending.len() > 0 ==> {
            let i = job_index(m.jobs, m.pending[0]);
            0 <= i < m.jobs.len() && m.jobs[i].id == m.pending[0]
                && m.jobs[i].status == JobStatus::Pending
        },
{
    if m.pending.len() == 0 {
        return;
    }
    let id = m.pending[0];
    assert(has_job(m.jobs, id));
    let i = job_index(m.jobs, id);
    assert(0 <= i < m.jobs.len() && m.jobs[i].id == id);
    assert(m.pending.contains(m.jobs[i].id));
    assert(m.jobs[i].status == JobStatus::Pending);
    let m2 = claim_step(m, claimant, now).0;
    let n = m.jobs.len() as int;
    let p = m.pending.len() as int;
    let nj = claimed_job(m.jobs[i], claimant, now);
    assert(m2.jobs == m.jobs.update(i, nj));
    assert(m2.pending == m.pending.drop_first());
    assert forall|a: int, b: int| 0 <= a < b < m2.jobs.len() implies #[trigger] m2.jobs[a].id
        != #[trigger] m2.jobs[b].id by {
        assert(m2.jobs[a].id == m.jobs[a].id && m2.jobs[b].id == m.jobs[b].id);
    }
    assert forall|a: int, b: int| 0 <= a < b < m2.pending.len() implies #[trigger] m2.pending[a]
        != #[trigger] m2.pending[b] by {
        assert(m2.pending[a] == m.pending[a + 1] && m2.pending[b] == m.pending[b + 1]);
    }
    assert forall|j: int| 0 <= j < m2.jobs.len() implies ((#[trigger] m2.jobs[j].status
        == JobStatus::Pending) <==> m2.pending.contains(m2.jobs[j].id)) by {
        if j == i {
            assert(m2.jobs[j].status == JobStatus::Claimed);
            if m2.pending.contains(m2.jobs[j].id) {
                let w = choose|w: int| 0 <= w < m2.pending.len() && m2.pending[w] == m2.jobs[j].id;
                assert(m.pending[w + 1] == id);
                assert(m.pending[0] == id);
            }
        } else {
            assert(m2.jobs[j] == m.jobs[j]);
            if m.jobs[j].status == JobStatus::Pending {
                assert(m.pending.contains(m.jobs[j].id));
                let w = choose|w: int| 0 <= w < m.pending.len() && m.pending[w] == m.jobs[j].id;
                if w == 0 {
                    lemma_job_index_of(m.jobs, j);
                    assert(false);
                } else {
                    assert(m2.pending[w - 1] == m.jobs[j].id);
                    assert(m2.pending.contains(m2.jobs[j].id));
                }
            }
            if m2.pending.contains(m2.jobs[j].id) {
                let w = choose|w: int| 0 <= w < m2.pending.len() && m2.pending[w] == m2.jobs[j].id;
                assert(m.pending[w + 1] == m.jobs[j].id);
                assert(m.pending.contains(m.jobs[j].id));
            }
        }
    }
    assert forall|a: int| 0 <= a < m2.pending.len() implies has_job(m2.jobs, #[trigger] m2.pending[a]) by {
        assert(m2.pending[a] == m.pending[a + 1]);
        assert(has_job(m.jobs, m.pending[a + 1]));
        let w = choose|w: int| 0 <= w < m.jobs.len() && #[trigger] m.jobs[w].id == m.pending[a + 1];
        assert(m2.jobs[w].id == m.pending[a + 1]);
    }
    assert forall|j: int| 0 <= j < m2.jobs.len() implies ((#[trigger] m2.jobs[j].claimant) is Some
        ==> m2.jobs[j].status.is_held()) by {
        if j != i {
            assert(m2.jobs[j] == m.jobs[j]);
        }
    }
    assert forall|j: int| 0 <= j < m2.jobs.len() implies (!((#[trigger] m2.jobs[j].status)
        == JobStatus::Completed || m2.jobs[j].status == JobStatus::Failed)
        ==> m2.jobs[j].output.len() == 0) by {
        if j != i {
            assert(m2.jobs[j] == m.jobs[j]);
        }
    }
}

impl JobQueue {
    /// Claim the oldest pending job: it leaves the pending list, becomes
    /// Claimed under the caller's identity, and its identifying triple comes
    /// back. On an empty pending list nothing changes and no job is handed
    /// out.
    pub fn claim(&mut self, claimant: Option<u128>, now: u64) -> (r: Option<(u128, String, Vec<u8>)>)
        requires
            old(self).wf(),
        ensures
            final(self).wf(),
            final(self)@ == claim_step(old(self)@, claimant, now).0,
            (match r {
                Some(t) => Some(t.0),
                None => None,
            }) == claim_step(old(self)@, claimant, now).1,
            r is None <==> old(self)@.pending.len() == 0,
            r matches Some(t) ==> t.0 == old(self)@.pending[0] && {
                let i = job_index(old(self)@.jobs, t.0);
                t.1@ == old(self)@.jobs[i].name && t.2@ == old(self)@.jobs[i].input
            },
    {
        let ghost m = self@;
        proof {
            lemma_claim_wf(m, claimant, now);
        }
        if self.pending.len() == 0 {
            return None;
        }
        let id = self.pending[0];
        let idx: usize = match self.find_index(id) {
            Some(i) => i,
            None => {
                proof {
                    assert(has_job(m.jobs, m.pending[0]));
                    assert(false);
                }
                0
            },
        };
        proof {
            lemma_job_index_of(m.jobs, idx as int);
            assert(job_index(m.jobs, id) == idx as int);
        }
        let name_ret = self.jobs[idx].name.clone();
        let input_ret = clone_bytes(&self.jobs[idx].input);
        let name2 = self.jobs[idx].name.clone();
        let input2 = clone_bytes(&self.jobs[idx].input);
        let enq = self.jobs[idx].enqueued_at;
        let comp = self.jobs[idx].completed_at;
        let updated = Job {
            id,
            name: name2,
            input: input2,
            output: Vec::new(),
            status: JobStatus::Claimed,
            claimant,
            enqueued_at: enq,
            claimed_at: Some(now),
            completed_at: comp,
            activity_at: Some(now),
        };
        proof {
            assert(m.jobs[idx as int].status == JobStatus::Pending);
            assert(m.jobs[idx as int].output.len() == 0);
            assert(updated@.output =~= m.jobs[idx as int].output);
            assert(updated@ == claimed_job(m.jobs[idx as int], claimant, now));
        }
        self.jobs.set(idx, updated);
        self.pending.remove(0);
        proof {
            assert(self@.jobs =~= m.jobs.update(idx as int, claimed_job(m.jobs[idx as int], claimant, now)));
            assert(self@.pending =~= m.pending.drop_first());
        }
        Some((id, name_ret, input_ret))
    }
}


/// Replacing a non-Pending job by a non-Pending job with the same id keeps
/// the queue well-formed, provided the claimant and output rules hold of the
/// replacement.
pub proof fn lemma_update_nonpending_wf(m: QueueModel, i: int, nj: JobModel)
    requires
        wf_model(m),
        0 <= i < m.jobs.len(),
        nj.id == m.jobs[i].id,
        m.jobs[i].status != JobStatus::Pending,
        nj.status != JobStatus::Pending,
        nj.claimant is Some ==> nj.status.is_held(),
        !(nj.status == JobStatus::Completed || nj.status == JobStatus::Failed) ==> nj.output.len() == 0,
    ensures
        wf_model(QueueModel { pending: m.pending, jobs: m.jobs.update(i, nj) }),
{
    let m2 = QueueModel { pending: m.pending, jobs: m.jobs.update(i, nj) };
    assert forall|a: int, b: int| 0 <= a < b < m2.jobs.len() implies #[trigger] m2.jobs[a].id
        != #[trigger] m2.jobs[b].id by {
        assert(m2.jobs[a].id == m.jobs[a].id && m2.jobs[b].id == m.jobs[b].id);
    }
    assert forall|j: int| 0 <= j < m2.jobs.len() implies ((#[trigger] m2.jobs[j].status
        == JobStatus::Pending) <==> m2.pending.contains(m2.jobs[j].id)) by {
        if j == i {
            assert(!m.pending.contains(m.jobs[i].id));
            assert(m2.jobs[j].id == m.jobs[i].id);
        } else {
            assert(m2.jobs[j] == m.jobs[j]);
        }
    }
    assert forall|a: int| 0 <= a < m2.pending.len() implies has_job(m2.jobs, #[trigger] m2.pending[a]) by {
        assert(has_job(m.jobs, m.pending[a]));
        let w = choose|w: int| 0 <= w < m.jobs.len() && #[trigger] m.jobs[w].id == m.pending[a];
        assert(m2.jobs[w].id == m.pending[a]);
    }
    assert forall|j: int| 0 <= j < m2.jobs.len() implies ((#[trigger] m2.jobs[j].claimant) is Some
        ==> m2.jobs[j].status.is_held()) by {
        if j != i {
            assert(m2.jobs[j] == m.jobs[j]);
        }
    }
    assert forall|j: int| 0 <= j < m2.jobs.len() implies (!((#[trigger] m2.jobs[j].status)
        == JobStatus::Completed || m2.jobs[j].status == JobStatus::Failed)
        ==> m2.jobs[j].output.len() == 0) by {
        if j != i {
            assert(m2.jobs[j] == m.jobs[j]);
        }
    }
}

/// The model of a job as `complete` stamps it: terminal status, output
/// stored, claimant cleared.
pub open spec fn completed_job(j: JobModel, status: JobStatus, output: Seq<u8>, now: u64) -> JobModel {
    JobModel {
        id: j.id,
        name: j.name,
        input: j.input,
        output,
        status,
        claimant: None,
        enqueued_at: j.enqueued_at,
        claimed_at: j.claimed_at,
        completed_at: Some(now),
        activity_at: j.activity_at,
    }
}

/// The model of a job as `tickle` stamps it: Claimed advances to Running on
/// the first tickle, and the activity stamp is refreshed while the job is
/// held.
pub open spec fn tickled_job(j: JobModel, now: u64) -> JobModel {
    JobModel {
        id: j.id,
        name: j.name,
        input: j.input,
        output: j.output,
        status: if j.status == JobStatus::Claimed {
            JobStatus::Running
        } else {
            j.status
        },
        claimant: j.claimant,
        enqueued_at: j.enqueued_at,
        claimed_at: j.claimed_at,
        completed_at: j.completed_at,
        activity_at: if j.status.is_held() {
            Some(now)
        } else {
            j.activity_at
        },
    }
}

impl JobQueue {
    /// Mark a held job Completed or Failed, storing its output. Fails with
    /// NotFound on an unknown id and with InvalidTransition unless the job is
    /// currently Claimed or Running; failure leaves the queue unchanged.
    pub fn complete(&mut self, id: u128, status: JobStatus, output: Vec<u8>, now: u64) -> (r: Result<(), QueueError>)
        requires
            old(self).wf(),
            status == JobStatus::Completed || status == JobStatus::Failed,
        ensures
            final(self).wf(),
            !has_job(old(self)@.jobs, id) ==> r == Err::<(), QueueError>(QueueError::NotFound)
                && final(self)@ == old(self)@,
            has_job(old(self)@.jobs, id) ==> {
                let i = job_index(old(self)@.jobs, id);
                if old(self)@.jobs[i].status.is_held() {
                    r == Ok::<(), QueueError>(()) && legal_step(old(self)@.jobs[i].status, status)
                        && final(self)@ == (QueueModel {
                        pending: old(self)@.pending,
                        jobs: old(self)@.jobs.update(i, completed_job(old(self)@.jobs[i], status, output@, now)),
                    })
                } else {
                    r == Err::<(), QueueError>(QueueError::InvalidTransition)
                        && final(self)@ == old(self)@
                }
            },
    {
        let ghost m = self@;
        let idx: usize = match self.find_index(id) {
            Some(i) => i,
            None => {
                return Err(QueueError::NotFound);
            },
        };
        proof {
            lemma_job_index_of(m.jobs, idx as int);
        }
        if !self.jobs[idx].status.held() {
            return Err(QueueError::InvalidTransition);
        }
        let name2 = self.jobs[idx].name.clone();
        let input2 = clone_bytes(&self.jobs[idx].input);
        let enq = self.jobs[idx].enqueued_at;
        let cla = self.jobs[idx].claimed_at;
        let act = self.jobs[idx].activity_at;
        let updated = Job {
            id,
            name: name2,
            input: input2,
            output,
            status,
            claimant: None,
            enqueued_at: enq,
            claimed_at: cla,
            completed_at: Some(now),
            activity_at: act,
        };
        proof {
            assert(updated@ == completed_job(m.jobs[idx as int], status, updated@.output, now));
            lemma_update_nonpending_wf(m, idx as int, updated@);
        }
        self.jobs.set(idx, updated);
        proof {
            assert(self@.jobs =~= m.jobs.update(idx as int, completed_job(m.jobs[idx as int], status, output@, now)));
            assert(self@.pending =~= m.pending);
        }
        Ok(())
    }

    /// Runner keepalive: refresh the activity stamp and advance Claimed to
    /// Running on the first tickle. Fails with NotFound on an unknown id; on
    /// a job that is not held it is a silent no-op.
    pub fn tickle(&mut self, id: u128, now: u64) -> (r: Result<(), QueueError>)
        requires
            old(self).wf(),
        ensures
            final(self).wf(),
            !has_job(old(self)@.jobs, id) ==> r == Err::<(), QueueError>(QueueError::NotFound)
                && final(self)@ == old(self)@,
            has_job(old(self)@.jobs, id) ==> r == Ok::<(), QueueError>(()) && {
                let i = job_index(old(self)@.jobs, id);
                final(self)@ == (QueueModel {
                    pending: old(self)@.pending,
                    jobs: old(self)@.jobs.update(i, tickled_job(old(self)@.jobs[i], now)),
                })
            },
    {
        let ghost m = self@;
        let idx: usize = match self.find_index(id) {
            Some(i) => i,
            None => {
                return Err(QueueError::NotFound);
            },
        };
        proof {
            lemma_job_index_of(m.jobs, idx as int);
        }
        if !self.jobs[idx].status.held() {
            proof {
                assert(tickled_job(m.jobs[idx as int], now) == m.jobs[idx as int]);
                assert(m.jobs.update(idx as int, m.jobs[idx as int]) =~= m.jobs);
            }
            return Ok(());
        }
        let name2 = self.jobs[idx].name.clone();
        let input2 = clone_bytes(&self.jobs[idx].input);
        let output2 = clone_bytes(&self.jobs[idx].output);
        let st = self.jobs[idx].status;
        let clm = self.jobs[idx].claimant;
        let enq = self.jobs[idx].enqueued_at;
        let cla = self.jobs[idx].claimed_at;
        let comp = self.jobs[idx].completed_at;
        let updated = Job {
            id,
            name: name2,
            input: input2,
            output: output2,
            status: if matches!(st, JobStatus::Claimed) {
                JobStatus::Running
            } else {
                st
            },
            claimant: clm,
            enqueued_at: enq,
            claimed_at: cla,
            completed_at: comp,
            activity_at: Some(now),
        };
        proof {
            assert(updated@ == tickled_job(m.jobs[idx as int], now));
            lemma_update_nonpending_wf(m, idx as int, updated@);
        }
        self.jobs.set(idx, updated);
        proof {
            assert(self@.jobs =~= m.jobs.update(idx as int, tickled_job(m.jobs[idx as int], now)));
            assert(self@.pending =~= m.pending);
        }
        Ok(())
    }

    /// Read-only view of a job: its status and output.
    pub fn get(&self, id: u128) -> (r: Option<(JobStatus, Vec<u8>)>)
        requires
            self.wf(),
        ensures
            r is Some <==> has_job(self@.jobs, id),
            r matches Some(t) ==> {
                let i = job_index(self@.jobs, id);
                t.0 == self@.jobs[i].status && t.1@ == self@.jobs[i].output
            },
    {
        match self.find_index(id) {
            Some(i) => {
                proof {
                    lemma_job_index_of(self@.jobs, i as int);
                }
                let st = self.jobs[i].status;
                let out = clone_bytes(&self.jobs[i].output);
                Some((st, out))
            },
            None => None,
        }
    }

    /// Number of jobs waiting to be claimed.
    pub fn pending_len(&self) -> (r: usize)
        ensures
            r == self@.pending.len(),
    {
        self.pending.len()
    }

    /// Number of jobs ever enqueued and still tracked.
    pub fn len(&self) -> (r: usize)
        ensures
            r == self@.jobs.len(),
    {
        self.jobs.len()
    }
}


/// The ids handed out by `k` successive claims on a queue model.
pub open spec fn claim_results(m: QueueModel, claimant: Option<u128>, now: u64, k: nat) -> Seq<Option<u128>>
    decreases k,
{
    if k == 0 {
        Seq::empty()
    } else {
        seq![claim_step(m, claimant, now).1] + claim_results(
            claim_step(m, claimant, now).0,
            claimant,
            now,
            (k - 1) as nat,
        )
    }
}

/// Claims come out in enqueue order: the i-th of k successive claims hands
/// out the i-th pending id, and claims past the end of the pending list hand
/// out nothing.
pub proof fn lemma_fifo_claims(m: QueueModel, claimant: Option<u128>, now: u64, k: nat)
    requires
        wf_model(m),
    ensures
        claim_results(m, claimant, now, k).len() == k,
        forall|i: int|
            0 <= i < k ==> claim_results(m, claimant, now, k)[i] == (if i < m.pending.len() {
                Some(m.pending[i])
            } else {
                None::<u128>
            }),
    decreases k,
{
    if k > 0 {
        let m2 = claim_step(m, claimant, now).0;
        let r = claim_step(m, claimant, now).1;
        lemma_claim_wf(m, claimant, now);
        lemma_fifo_claims(m2, claimant, now, (k - 1) as nat);
        let rs = claim_results(m, claimant, now, k);
        let rs2 = claim_results(m2, claimant, now, (k - 1) as nat);
        assert(rs == seq![r] + rs2);
        if m.pending.len() == 0 {
            assert(m2 == m);
            assert forall|i: int| 0 <= i < k implies rs[i] == (if i < m.pending.len() {
                Some(m.pending[i])
            } else {
                None::<u128>
            }) by {
                if i > 0 {
                    assert(rs[i] == rs2[i - 1]);
                }
            }
        } else {
            assert(m2.pending == m.pending.drop_first());
            assert(rs[0] == Some(m.pending[0]));
            assert forall|i: int| 0 <= i < k implies rs[i] == (if i < m.pending.len() {
                Some(m.pending[i])
            } else {
                None::<u128>
            }) by {
                if i > 0 {
                    assert(rs[i] == rs2[i - 1]);
                    if i < m.pending.len() {
                        assert(m2.pending[i - 1] == m.pending[i]);
                    }
                }
            }
        }
    }
}

/// With M pending jobs and k >= M claims, exactly the first M claims succeed,
/// they hand out M pairwise distinct ids in enqueue order, and every later
/// claim hands out nothing.
pub proof fn lemma_claims_exhaust(m: QueueModel, claimant: Option<u128>, now: u64, k: nat)
    requires
        wf_model(m),
        m.pending.len() <= k,
    ensures
        claim_results(m, claimant, now, k).len() == k,
        forall|i: int|
            0 <= i < m.pending.len() ==> claim_results(m, claimant, now, k)[i]
                == Some(m.pending[i]),
        forall|i: int|
            m.pending.len() <= i < k ==> claim_results(m, claimant, now, k)[i] is None,
        forall|i: int, j: int|
            0 <= i < j < m.pending.len() ==> claim_results(m, claimant, now, k)[i]
                != claim_results(m, claimant, now, k)[j],
{
    lemma_fifo_claims(m, claimant, now, k);
}

/// The job is Pending exactly when its id sits in the pending list.
pub proof fn lemma_pending_iff_listed(m: QueueModel, j: int)
    requires
        wf_model(m),
        0 <= j < m.jobs.len(),
    ensures
        m.jobs[j].status == JobStatus::Pending <==> m.pending.contains(m.jobs[j].id),
{
}

/// Every job carries a claimant exactly while it is held (Claimed or
/// Running).
pub open spec fn claimants_match(jobs: Seq<JobModel>) -> bool {
    forall|j: int|
        0 <= j < jobs.len() ==> ((#[trigger] jobs[j].claimant) is Some <==> jobs[j].status.is_held())
}

/// Enqueueing keeps the claimant-iff-held invariant: the new job is Pending
/// with no claimant.
pub proof fn lemma_enqueue_claimants(m: QueueModel, id: u128, name: Seq<char>, input: Seq<u8>, now: u64)
    requires
        claimants_match(m.jobs),
    ensures
        claimants_match(enqueue_step(m, id, name, input, now).jobs),
{
    let jobs2 = enqueue_step(m, id, name, input, now).jobs;
    assert forall|j: int| 0 <= j < jobs2.len() implies ((#[trigger] jobs2[j].claimant) is Some
        <==> jobs2[j].status.is_held()) by {
        if j < m.jobs.len() {
            assert(jobs2[j] == m.jobs[j]);
        }
    }
}

/// A claim under a known caller keeps the claimant-iff-held invariant: the
/// claimed job records the caller and becomes held.
pub proof fn lemma_claim_claimants(m: QueueModel, c: u128, now: u64)
    requires
        wf_model(m),
        claimants_match(m.jobs),
    ensures
        claimants_match(claim_step(m, Some(c), now).0.jobs),
{
    lemma_claim_wf(m, Some(c), now);
    let jobs2 = claim_step(m, Some(c), now).0.jobs;
    assert forall|j: int| 0 <= j < jobs2.len() implies ((#[trigger] jobs2[j].claimant) is Some
        <==> jobs2[j].status.is_held()) by {
        if m.pending.len() > 0 {
            let i = job_index(m.jobs, m.pending[0]);
            if j != i {
                assert(jobs2[j] == m.jobs[j]);
            }
        }
    }
}

/// Completion keeps the claimant-iff-held invariant: the claimant is cleared
/// as the job turns terminal.
pub proof fn lemma_complete_claimants(m: QueueModel, i: int, status: JobStatus, output: Seq<u8>, now: u64)
    requires
        claimants_match(m.jobs),
        0 <= i < m.jobs.len(),
        status == JobStatus::Completed || status == JobStatus::Failed,
    ensures
        claimants_match(m.jobs.update(i, completed_job(m.jobs[i], status, output, now))),
{
    let jobs2 = m.jobs.update(i, completed_job(m.jobs[i], status, output, now));
    assert forall|j: int| 0 <= j < jobs2.len() implies ((#[trigger] jobs2[j].claimant) is Some
        <==> jobs2[j].status.is_held()) by {
        if j != i {
            assert(jobs2[j] == m.jobs[j]);
        }
    }
}

/// A tickle keeps the claimant-iff-held invariant: the claimant stays while
/// the job stays held.
pub proof fn lemma_tickle_claimants(m: QueueModel, i: int, now: u64)
    requires
        claimants_match(m.jobs),
        0 <= i < m.jobs.len(),
    ensures
        claimants_match(m.jobs.update(i, tickled_job(m.jobs[i], now))),
{
    let jobs2 = m.jobs.update(i, tickled_job(m.jobs[i], now));
    assert forall|j: int| 0 <= j < jobs2.len() implies ((#[trigger] jobs2[j].claimant) is Some
        <==> jobs2[j].status.is_held()) by {
        if j != i {
            assert(jobs2[j] == m.jobs[j]);
        }
    }
}


/// Each operation moves a job's status along the state machine legally:
/// a claim takes Pending to Claimed, completion takes a held job to its
/// terminal status, and a tickle either stands still or takes Claimed to
/// Running.
pub proof fn lemma_ops_step_legally(
    j: JobModel,
    claimant: Option<u128>,
    status: JobStatus,
    output: Seq<u8>,
    now: u64,
)
    requires
        status == JobStatus::Completed || status == JobStatus::Failed,
    ensures
        j.status == JobStatus::Pending ==> legal_step(j.status, claimed_job(j, claimant, now).status),
        j.status.is_held() ==> legal_step(j.status, completed_job(j, status, output, now).status),
        tickled_job(j, now).status == j.status || legal_step(j.status, tickled_job(j, now).status),
{
}

impl JobQueue {
    /// Read-only view of who holds a job: None for an unknown id, otherwise
    /// the claimant on record.
    pub fn claimant(&self, id: u128) -> (r: Option<Option<u128>>)
        requires
            self.wf(),
        ensures
            r is Some <==> has_job(self@.jobs, id),
            r matches Some(c) ==> c == self@.jobs[job_index(self@.jobs, id)].claimant,
    {
        match self.find_index(id) {
            Some(i) => {
                proof {
                    lemma_job_index_of(self@.jobs, i as int);
                }
                Some(self.jobs[i].claimant)
            },
            None => None,
        }
    }
}


/// Every job carries output exactly while it stands Completed or Failed.
pub open spec fn outputs_match(jobs: Seq<JobModel>) -> bool {
    forall|j: int|
        0 <= j < jobs.len() ==> ((#[trigger] jobs[j].output.len() > 0) <==> (jobs[j].status
            == JobStatus::Completed || jobs[j].status == JobStatus::Failed))
}

/// Enqueueing keeps the output-iff-completion invariant: the new job is
/// Pending with no output.
pub proof fn lemma_enqueue_outputs(m: QueueModel, id: u128, name: Seq<char>, input: Seq<u8>, now: u64)
    requires
        outputs_match(m.jobs),
    ensures
        outputs_match(enqueue_step(m, id, name, input, now).jobs),
{
    let jobs2 = enqueue_step(m, id, name, input, now).jobs;
    assert forall|j: int| 0 <= j < jobs2.len() implies ((#[trigger] jobs2[j].output.len() > 0)
        <==> (jobs2[j].status == JobStatus::Completed || jobs2[j].status == JobStatus::Failed)) by {
        if j < m.jobs.len() {
            assert(jobs2[j] == m.jobs[j]);
        }
    }
}

/// A claim keeps the output-iff-completion invariant: the claimed job was
/// Pending, so it carries no output yet.
pub proof fn lemma_claim_outputs(m: QueueModel, c: Option<u128>, now: u64)
    requires
        wf_model(m),
        outputs_match(m.jobs),
    ensures
        outputs_match(claim_step(m, c, now).0.jobs),
{
    lemma_claim_wf(m, c, now);
    let jobs2 = claim_step(m, c, now).0.jobs;
    assert forall|j: int| 0 <= j < jobs2.len() implies ((#[trigger] jobs2[j].output.len() > 0)
        <==> (jobs2[j].status == JobStatus::Completed || jobs2[j].status == JobStatus::Failed)) by {
        if m.pending.len() > 0 {
            let i = job_index(m.jobs, m.pending[0]);
            if j != i {
                assert(jobs2[j] == m.jobs[j]);
            }
        }
    }
}

/// Completion with output in hand keeps the output-iff-completion
/// invariant.
pub proof fn lemma_complete_outputs(m: QueueModel, i: int, status: JobStatus, output: Seq<u8>, now: u64)
    requires
        outputs_match(m.jobs),
        0 <= i < m.jobs.len(),
        status == JobStatus::Completed || status == JobStatus::Failed,
        output.len() > 0,
    ensures
        outputs_match(m.jobs.update(i, completed_job(m.jobs[i], status, output, now))),
{
    let jobs2 = m.jobs.update(i, completed_job(m.jobs[i], status, output, now));
    assert forall|j: int| 0 <= j < jobs2.len() implies ((#[trigger] jobs2[j].output.len() > 0)
        <==> (jobs2[j].status == JobStatus::Completed || jobs2[j].status == JobStatus::Failed)) by {
        if j != i {
            assert(jobs2[j] == m.jobs[j]);
        }
    }
}

/// A tickle keeps the output-iff-completion invariant: status and output
/// both stand, or the job moves between two held states.
pub proof fn lemma_tickle_outputs(m: QueueModel, i: int, now: u64)
    requires
        outputs_match(m.jobs),
        0 <= i < m.jobs.len(),
    ensures
        outputs_match(m.jobs.update(i, tickled_job(m.jobs[i], now))),
{
    let jobs2 = m.jobs.update(i, tickled_job(m.jobs[i], now));
    assert forall|j: int| 0 <= j < jobs2.len() implies ((#[trigger] jobs2[j].output.len() > 0)
        <==> (jobs2[j].status == JobStatus::Completed || jobs2[j].status == JobStatus::Failed)) by {
        if j != i {
            assert(jobs2[j] == m.jobs[j]);
        }
    }
}


} // verus!
