//! The job list and the operations on it.
//!
//! A [`ProcessorState`] holds the jobs in the order in which they were
//! enqueued, the request to cancel the running job, and the mark that a
//! worker is running. It is plain data with one owner: whoever shares it
//! between a worker and its callers guards it as a whole.

pub mod image_converter;
pub mod queue;
pub mod temp_manager;
pub mod zip_handler;

use crate::text::{push_str, texts};
use vstd::prelude::*;

verus! {

/// Where a job stands in its life.
#[derive(Clone, Copy, Debug, PartialEq, Eq, Structural)]
pub enum JobStatus {
    Pending,
    Processing,
    Success,
    Failed,
    Cancelled,
}

/// The stage of a job that is being processed.
#[derive(Clone, Copy, Debug, PartialEq, Eq, Structural)]
pub enum ProcessingPhase {
    Scanning,
    Converting,
    Packaging,
}

/// How far a job has come.
#[derive(Debug)]
pub struct ProgressInfo {
    pub current_file: usize,
    pub total_files: usize,
    pub current_filename: String,
    pub phase: ProcessingPhase,
}

/// One conversion request with its state.
#[derive(Debug)]
pub struct JobInfo {
    pub id: String,
    pub input_path: String,
    pub status: JobStatus,
    pub progress: Option<ProgressInfo>,
    pub output_path: Option<String>,
    pub error: Option<String>,
}

/// The counters of a finished job.
#[derive(Clone, Copy, Debug, PartialEq, Eq, Structural)]
pub struct ProcessingStats {
    pub files_scanned: usize,
    pub files_included: usize,
    pub files_converted: usize,
    pub files_skipped: usize,
}

/// A change to one job.
#[derive(Debug)]
pub enum JobUpdate {
    /// The job has come this far.
    Progress(ProgressInfo),
    /// The job succeeded and its output stands at this path.
    Succeeded(String),
    /// The job failed with this message.
    Failed(String),
    /// The job was cancelled.
    Cancelled,
}

/// A notice for whoever watches the queue.
#[derive(Debug)]
pub enum QueueEvent {
    /// The running job has come this far.
    Progress(ProgressInfo),
    /// The job `job_id` succeeded.
    JobComplete { job_id: String, output_path: String },
    /// The job `job_id` failed.
    JobFailed { job_id: String, error: String },
}

/// Why jobs could not be enqueued.
#[derive(Debug)]
pub enum QueueError {
    /// There is not one id for each path.
    IdCountMismatch,
    /// This id is given twice, or a job in the list has it.
    DuplicateId(String),
}

/// What a [`ProgressInfo`] says.
pub struct Progress {
    pub current_file: nat,
    pub total_files: nat,
    pub current_filename: Seq<char>,
    pub phase: ProcessingPhase,
}

/// What a [`JobInfo`] says.
pub struct JobRecord {
    pub id: Seq<char>,
    pub input_path: Seq<char>,
    pub status: JobStatus,
    pub progress: Option<Progress>,
    pub output_path: Option<Seq<char>>,
    pub error: Option<Seq<char>>,
}

/// What a [`JobUpdate`] says.
pub enum JobChange {
    Progress(Progress),
    Succeeded(Seq<char>),
    Failed(Seq<char>),
    Cancelled,
}

/// What a [`QueueEvent`] says.
pub enum Notice {
    Progress(Progress),
    JobComplete { job_id: Seq<char>, output_path: Seq<char> },
    JobFailed { job_id: Seq<char>, error: Seq<char> },
}

/// What a [`ProcessorState`] holds.
pub struct QueueState {
    pub jobs: Seq<JobRecord>,
    pub cancel_requested: bool,
    pub worker_running: bool,
}

impl View for ProgressInfo {
    type V = Progress;

    open spec fn view(&self) -> Progress {
        Progress {
            current_file: self.current_file as nat,
            total_files: self.total_files as nat,
            current_filename: self.current_filename@,
            phase: self.phase,
        }
    }
}

/// The characters of an optional string.
pub open spec fn optional_text(s: Option<String>) -> Option<Seq<char>> {
    match s {
        Some(s) => Some(s@),
        None => None,
    }
}

impl View for JobInfo {
    type V = JobRecord;

    open spec fn view(&self) -> JobRecord {
        JobRecord {
            id: self.id@,
            input_path: self.input_path@,
            status: self.status,
            progress: match self.progress {
                Some(p) => Some(p@),
                None => None,
            },
            output_path: optional_text(self.output_path),
            error: optional_text(self.error),
        }
    }
}

impl View for JobUpdate {
    type V = JobChange;

    open spec fn view(&self) -> JobChange {
        match self {
            JobUpdate::Progress(p) => JobChange::Progress(p@),
            JobUpdate::Succeeded(path) => JobChange::Succeeded(path@),
            JobUpdate::Failed(error) => JobChange::Failed(error@),
            JobUpdate::Cancelled => JobChange::Cancelled,
        }
    }
}

impl View for QueueEvent {
    type V = Notice;

    open spec fn view(&self) -> Notice {
        match self {
            QueueEvent::Progress(p) => Notice::Progress(p@),
            QueueEvent::JobComplete { job_id, output_path } => Notice::JobComplete {
                job_id: job_id@,
                output_path: output_path@,
            },
            QueueEvent::JobFailed { job_id, error } => Notice::JobFailed {
                job_id: job_id@,
                error: error@,
            },
        }
    }
}

/// What the jobs `jobs` say.
pub open spec fn job_records(jobs: Seq<JobInfo>) -> Seq<JobRecord> {
    Seq::new(jobs.len(), |i: int| jobs[i]@)
}

/// Whether a job with this status has reached its end.
pub open spec fn is_terminal(status: JobStatus) -> bool {
    status is Success || status is Failed || status is Cancelled
}

/// Whether no two of `jobs` have the same id.
pub open spec fn unique_ids(jobs: Seq<JobRecord>) -> bool {
    forall|i: int, j: int| 0 <= i < j < jobs.len() ==> jobs[i].id != jobs[j].id
}

/// The job that is enqueued for `input_path` under `id`.
pub open spec fn pending_job(id: Seq<char>, input_path: Seq<char>) -> JobRecord {
    JobRecord {
        id,
        input_path,
        status: JobStatus::Pending,
        progress: None,
        output_path: None,
        error: None,
    }
}

/// The jobs that are enqueued for `paths` under `ids`, one for each path.
pub open spec fn pending_jobs(paths: Seq<Seq<char>>, ids: Seq<Seq<char>>) -> Seq<JobRecord> {
    Seq::new(paths.len(), |i: int| pending_job(ids[i], paths[i]))
}

/// Whether `ids` can name new jobs beside `jobs`: no id is given twice, and
/// no job has one of them.
pub open spec fn fresh_ids(jobs: Seq<JobRecord>, ids: Seq<Seq<char>>) -> bool {
    &&& forall|i: int, j: int| 0 <= i < j < ids.len() ==> ids[i] != ids[j]
    &&& forall|i: int, j: int| 0 <= i < jobs.len() && 0 <= j < ids.len() ==> jobs[i].id != ids[j]
}

/// The index of the first of `jobs` that is pending, or the number of jobs
/// if none is.
pub open spec fn first_pending(jobs: Seq<JobRecord>) -> int
    decreases jobs.len(),
{
    if jobs.len() == 0 {
        0
    } else if jobs[0].status is Pending {
        0
    } else {
        1 + first_pending(jobs.drop_first())
    }
}

/// The index of the first of `jobs` with the id `id`, or the number of jobs
/// if none has it.
pub open spec fn position(jobs: Seq<JobRecord>, id: Seq<char>) -> int
    decreases jobs.len(),
{
    if jobs.len() == 0 {
        0
    } else if jobs[0].id == id {
        0
    } else {
        1 + position(jobs.drop_first(), id)
    }
}

/// The job `job` after `change`. Reaching an end clears the progress.
pub open spec fn changed(job: JobRecord, change: JobChange) -> JobRecord {
    match change {
        JobChange::Progress(p) => JobRecord { progress: Some(p), ..job },
        JobChange::Succeeded(path) => JobRecord {
            status: JobStatus::Success,
            output_path: Some(path),
            progress: None,
            ..job
        },
        JobChange::Failed(error) => JobRecord {
            status: JobStatus::Failed,
            error: Some(error),
            progress: None,
            ..job
        },
        JobChange::Cancelled => JobRecord { status: JobStatus::Cancelled, progress: None, ..job },
    }
}

/// The jobs `jobs` after `change` to the first job with the id `id`. Without
/// such a job nothing changes.
pub open spec fn updated(jobs: Seq<JobRecord>, id: Seq<char>, change: JobChange) -> Seq<
    JobRecord,
> {
    let i = position(jobs, id);
    if i < jobs.len() {
        jobs.update(i, changed(jobs[i], change))
    } else {
        jobs
    }
}

/// The jobs `jobs` with the first pending one taken up for processing.
pub open spec fn taken_up(jobs: Seq<JobRecord>) -> Seq<JobRecord> {
    let i = first_pending(jobs);
    if i < jobs.len() {
        jobs.update(i, JobRecord { status: JobStatus::Processing, ..jobs[i] })
    } else {
        jobs
    }
}

/// The jobs of `jobs` that have not reached their end, in order.
pub open spec fn unfinished(jobs: Seq<JobRecord>) -> Seq<JobRecord> {
    jobs.filter(|job: JobRecord| !is_terminal(job.status))
}

/// What [`first_pending`] finds: a pending job with none before it.
pub proof fn lemma_first_pending(jobs: Seq<JobRecord>)
    ensures
        0 <= first_pending(jobs) <= jobs.len(),
        first_pending(jobs) < jobs.len() ==> jobs[first_pending(jobs)].status is Pending,
        forall|k: int| 0 <= k < first_pending(jobs) ==> !(jobs[k].status is Pending),
    decreases jobs.len(),
{
    if jobs.len() > 0 && !(jobs[0].status is Pending) {
        let rest = jobs.drop_first();
        lemma_first_pending(rest);
        assert forall|k: int| 0 <= k < first_pending(jobs) implies !(jobs[k].status is Pending) by {
            if k > 0 {
                assert(rest[k - 1] == jobs[k]);
            }
        }
    }
}

/// What [`position`] finds: a job with the id and none before it.
pub proof fn lemma_position(jobs: Seq<JobRecord>, id: Seq<char>)
    ensures
        0 <= position(jobs, id) <= jobs.len(),
        position(jobs, id) < jobs.len() ==> jobs[position(jobs, id)].id == id,
        forall|k: int| 0 <= k < position(jobs, id) ==> jobs[k].id != id,
    decreases jobs.len(),
{
    if jobs.len() > 0 && jobs[0].id != id {
        let rest = jobs.drop_first();
        lemma_position(rest, id);
        assert forall|k: int| 0 <= k < position(jobs, id) implies jobs[k].id != id by {
            if k > 0 {
                assert(rest[k - 1] == jobs[k]);
            }
        }
    }
}

/// A change to a job keeps the ids of all jobs.
pub proof fn lemma_updated_keeps_ids(jobs: Seq<JobRecord>, id: Seq<char>, change: JobChange)
    ensures
        updated(jobs, id, change).len() == jobs.len(),
        forall|k: int| 0 <= k < jobs.len() ==> updated(jobs, id, change)[k].id == jobs[k].id,
        unique_ids(jobs) ==> unique_ids(updated(jobs, id, change)),
{
    lemma_position(jobs, id);
}

/// How [`unfinished`] treats the last of the jobs.
pub proof fn lemma_unfinished_last(jobs: Seq<JobRecord>)
    requires
        jobs.len() > 0,
    ensures
        unfinished(jobs) == if is_terminal(jobs.last().status) {
            unfinished(jobs.drop_last())
        } else {
            unfinished(jobs.drop_last()).push(jobs.last())
        },
{
    reveal(Seq::filter);
}

/// Where no job has reached its end, clearing the finished jobs changes
/// nothing.
pub proof fn lemma_unfinished_keeps_all(jobs: Seq<JobRecord>)
    requires
        forall|k: int| 0 <= k < jobs.len() ==> !is_terminal(jobs[k].status),
    ensures
        unfinished(jobs) == jobs,
    decreases jobs.len(),
{
    if jobs.len() == 0 {
        reveal(Seq::filter);
    } else {
        lemma_unfinished_last(jobs);
        lemma_unfinished_keeps_all(jobs.drop_last());
        assert(jobs.drop_last().push(jobs.last()) =~= jobs);
    }
}

/// Clearing the finished jobs removes them all and nothing else, and changes
/// nothing when it is done again.
pub proof fn lemma_unfinished(jobs: Seq<JobRecord>)
    ensures
        forall|k: int|
            0 <= k < unfinished(jobs).len() ==> !is_terminal(#[trigger] unfinished(jobs)[k].status),
        forall|k: int|
            0 <= k < jobs.len() && !is_terminal(jobs[k].status) ==> unfinished(jobs).contains(
                #[trigger] jobs[k],
            ),
        forall|job: JobRecord| #[trigger] unfinished(jobs).contains(job) ==> jobs.contains(job),
        unfinished(unfinished(jobs)) == unfinished(jobs),
{
    let keep = |job: JobRecord| !is_terminal(job.status);
    let kept = unfinished(jobs);
    assert forall|k: int| 0 <= k < kept.len() implies !is_terminal(#[trigger] kept[k].status) by {
        jobs.lemma_filter_pred(keep, k);
    }
    assert forall|k: int| 0 <= k < jobs.len() && !is_terminal(jobs[k].status) implies kept.contains(
        #[trigger] jobs[k],
    ) by {
        jobs.lemma_filter_contains(keep, k);
    }
    assert forall|job: JobRecord| #[trigger] kept.contains(job) implies jobs.contains(job) by {
        jobs.lemma_filter_contains_rev(keep, job);
    }
    lemma_unfinished_keeps_all(kept);
}

/// Among enqueued jobs the one enqueued first is taken up first.
pub proof fn lemma_first_enqueued_is_first_taken(
    jobs: Seq<JobRecord>,
    paths: Seq<Seq<char>>,
    ids: Seq<Seq<char>>,
)
    requires
        paths.len() > 0,
        first_pending(jobs) == jobs.len(),
    ensures
        first_pending(jobs + pending_jobs(paths, ids)) == jobs.len(),
        first_pending(taken_up(jobs + pending_jobs(paths, ids))) == jobs.len() + 1,
{
    let all = jobs + pending_jobs(paths, ids);
    lemma_first_pending(jobs);
    lemma_first_pending(all);
    let i = first_pending(all);
    assert(all[jobs.len() as int].status is Pending);
    assert(i == jobs.len()) by {
        if i < jobs.len() {
            assert(all[i] == jobs[i]);
        }
    }
    let next = taken_up(all);
    lemma_first_pending(next);
    let k = first_pending(next);
    assert(k > jobs.len()) by {
        if k < jobs.len() {
            assert(next[k] == jobs[k]);
        }
    }
    if paths.len() > 1 {
        assert(next[jobs.len() as int + 1].status is Pending);
    }
}

impl Clone for ProgressInfo {
    fn clone(&self) -> (copy: Self)
        ensures
            copy == *self,
    {
        ProgressInfo {
            current_file: self.current_file,
            total_files: self.total_files,
            current_filename: self.current_filename.clone(),
            phase: self.phase,
        }
    }
}

impl Clone for JobInfo {
    fn clone(&self) -> (copy: Self)
        ensures
            copy == *self,
    {
        JobInfo {
            id: self.id.clone(),
            input_path: self.input_path.clone(),
            status: self.status,
            progress: match &self.progress {
                Some(p) => Some(p.clone()),
                None => None,
            },
            output_path: match &self.output_path {
                Some(path) => Some(path.clone()),
                None => None,
            },
            error: match &self.error {
                Some(error) => Some(error.clone()),
                None => None,
            },
        }
    }
}

impl QueueEvent {
    /// The name under which the notice is sent.
    pub fn name(&self) -> (name: &'static str)
        ensures
            name@ == match self {
                QueueEvent::Progress(_) => "processing-progress"@,
                QueueEvent::JobComplete { .. } => "job-complete"@,
                QueueEvent::JobFailed { .. } => "job-failed"@,
            },
    {
        match self {
            QueueEvent::Progress(_) => "processing-progress",
            QueueEvent::JobComplete { .. } => "job-complete",
            QueueEvent::JobFailed { .. } => "job-failed",
        }
    }
}

impl QueueError {
    /// The error in words.
    pub fn message(&self) -> (text: String)
        ensures
            text@ == match self {
                QueueError::IdCountMismatch => "Failed to enqueue jobs: one id is needed for each path"@,
                QueueError::DuplicateId(id) => "Failed to enqueue jobs: duplicate job id "@ + id@,
            },
    {
        match self {
            QueueError::IdCountMismatch => {
                "Failed to enqueue jobs: one id is needed for each path".to_owned()
            },
            QueueError::DuplicateId(id) => {
                let mut text = "Failed to enqueue jobs: duplicate job id ".to_owned();
                push_str(&mut text, id.as_str());
                text
            },
        }
    }
}

/// A new random job id. Calls uuid's `Uuid::new_v4` and writes the value out
/// through its `Display` impl. The id is random, so nothing is claimed of it.
/// `new_v4` stops the program if the system has no random bytes to give.
#[verifier::external_body]
fn fresh_job_id() -> (id: String) {
    uuid::Uuid::new_v4().to_string()
}

/// Whether one of `jobs` has the id `id`.
fn has_job(jobs: &Vec<JobInfo>, id: &String) -> (found: bool)
    ensures
        found == exists|k: int| 0 <= k < jobs.len() && jobs[k].id@ == id@,
{
    let mut i: usize = 0;
    while i < jobs.len()
        invariant
            i <= jobs.len(),
            forall|k: int| 0 <= k < i ==> jobs[k].id@ != id@,
        decreases jobs.len() - i,
    {
        if jobs[i].id == *id {
            return true;
        }
        i = i + 1;
    }
    false
}

/// Whether one of the first `upto` strings of `ids` holds the characters of
/// `id`.
fn has_id(ids: &Vec<String>, upto: usize, id: &String) -> (found: bool)
    requires
        upto <= ids.len(),
    ensures
        found == exists|k: int| 0 <= k < upto && ids[k]@ == id@,
{
    let mut i: usize = 0;
    while i < upto
        invariant
            i <= upto <= ids.len(),
            forall|k: int| 0 <= k < i ==> ids[k]@ != id@,
        decreases upto - i,
    {
        if ids[i] == *id {
            return true;
        }
        i = i + 1;
    }
    false
}

/// The job list, the request to cancel and the mark of a running worker.
pub struct ProcessorState {
    jobs: Vec<JobInfo>,
    cancel_flag: bool,
    processing: bool,
}

impl View for ProcessorState {
    type V = QueueState;

    closed spec fn view(&self) -> QueueState {
        QueueState {
            jobs: job_records(self.jobs@),
            cancel_requested: self.cancel_flag,
            worker_running: self.processing,
        }
    }
}

impl ProcessorState {
    /// In every state no two jobs have the same id.
    #[verifier::type_invariant]
    pub closed spec fn well_formed(self) -> bool {
        unique_ids(job_records(self.jobs@))
    }

    /// No two jobs of a state have the same id.
    pub proof fn lemma_unique_ids(&self)
        requires
            self.well_formed(),
        ensures
            unique_ids(self@.jobs),
    {
    }

    /// A state without jobs, with no request to cancel and no worker.
    pub fn new() -> (state: Self)
        ensures
            state@ == (QueueState {
                jobs: Seq::empty(),
                cancel_requested: false,
                worker_running: false,
            }),
    {
        let state = ProcessorState { jobs: Vec::new(), cancel_flag: false, processing: false };
        proof {
            assert(state@.jobs =~= Seq::<JobRecord>::empty());
        }
        state
    }

    /// Enqueues one pending job for each of `paths`, each under a new random
    /// id, and returns the new jobs. Fails, and changes nothing, only if an
    /// id that was drawn is not new; without paths no id is drawn.
    pub fn add_jobs(&mut self, paths: Vec<String>) -> (result: Result<Vec<JobInfo>, QueueError>)
        ensures
            unique_ids(final(self)@.jobs),
            paths.len() == 0 ==> result is Ok,
            match result {
                Ok(jobs) => {
                    &&& jobs.len() == paths.len()
                    &&& forall|i: int|
                        0 <= i < jobs.len() ==> (#[trigger] jobs[i])@ == pending_job(
                            jobs[i].id@,
                            paths[i]@,
                        )
                    &&& final(self)@ == (QueueState {
                        jobs: old(self)@.jobs + job_records(jobs@),
                        ..old(self)@
                    })
                },
                Err(error) => error is DuplicateId && final(self)@ == old(self)@,
            },
    {
        let mut ids: Vec<String> = Vec::new();
        let mut i: usize = 0;
        while i < paths.len()
            invariant
                i <= paths.len(),
                ids.len() == i,
            decreases paths.len() - i,
        {
            ids.push(fresh_job_id());
            i = i + 1;
        }
        let result = self.add_jobs_with_ids(paths, ids);
        proof {
            if let Ok(jobs) = &result {
                assert forall|i: int| 0 <= i < jobs.len() implies (#[trigger] jobs[i])@
                    == pending_job(jobs[i].id@, paths[i]@) by {
                    assert(job_records(jobs@)[i] == jobs[i]@);
                    assert(texts(paths@)[i] == paths[i]@);
                }
            }
        }
        result
    }

    /// Enqueues one pending job for each of `paths`, the `i`-th under the
    /// `i`-th of `ids`, and returns the new jobs. Fails, and changes nothing,
    /// if there is not one id for each path or an id is not new.
    #[verifier::loop_isolation(false)]
    pub fn add_jobs_with_ids(&mut self, paths: Vec<String>, ids: Vec<String>) -> (result: Result<
        Vec<JobInfo>,
        QueueError,
    >)
        ensures
            unique_ids(final(self)@.jobs),
            match result {
                Ok(jobs) => {
                    &&& ids.len() == paths.len()
                    &&& fresh_ids(old(self)@.jobs, texts(ids@))
                    &&& job_records(jobs@) == pending_jobs(texts(paths@), texts(ids@))
                    &&& final(self)@ == (QueueState {
                        jobs: old(self)@.jobs + pending_jobs(texts(paths@), texts(ids@)),
                        ..old(self)@
                    })
                },
                Err(QueueError::IdCountMismatch) => {
                    &&& ids.len() != paths.len()
                    &&& final(self)@ == old(self)@
                },
                Err(QueueError::DuplicateId(id)) => {
                    &&& ids.len() == paths.len()
                    &&& !fresh_ids(old(self)@.jobs, texts(ids@))
                    &&& texts(ids@).contains(id@)
                    &&& final(self)@ == old(self)@
                },
            },
    {
        proof {
            use_type_invariant(&*self);
        }
        if ids.len() != paths.len() {
            return Err(QueueError::IdCountMismatch);
        }
        let ghost before = job_records(self.jobs@);
        let mut k: usize = 0;
        while k < ids.len()
            invariant
                k <= ids.len(),
                before == job_records(self.jobs@),
                fresh_ids(before, texts(ids@).take(k as int)),
            decreases ids.len() - k,
        {
            if has_job(&self.jobs, &ids[k]) || has_id(&ids, k, &ids[k]) {
                proof {
                    assert(texts(ids@)[k as int] == ids[k as int]@);
                    if exists|j: int| 0 <= j < self.jobs.len() && self.jobs[j].id@ == ids[k as int]@ {
                        let j = choose|j: int|
                            0 <= j < self.jobs.len() && self.jobs[j].id@ == ids[k as int]@;
                        assert(before[j].id == texts(ids@)[k as int]);
                    } else {
                        let j = choose|j: int| 0 <= j < k && ids[j]@ == ids[k as int]@;
                        assert(texts(ids@)[j] == texts(ids@)[k as int]);
                    }
                }
                return Err(QueueError::DuplicateId(ids[k].clone()));
            }
            proof {
                let now = texts(ids@).take(k + 1);
                let then = texts(ids@).take(k as int);
                assert forall|i: int, j: int| 0 <= i < j < now.len() implies now[i] != now[j] by {
                    if j < k {
                        assert(then[i] != then[j]);
                    } else {
                        assert(ids[i]@ != ids[k as int]@);
                    }
                }
                assert forall|i: int, j: int|
                    0 <= i < before.len() && 0 <= j < now.len() implies before[i].id != now[j] by {
                    if j < k {
                        assert(before[i].id != then[j]);
                    } else {
                        assert(self.jobs[i].id@ != ids[k as int]@);
                    }
                }
            }
            k = k + 1;
        }
        proof {
            assert(texts(ids@).take(k as int) =~= texts(ids@));
        }
        let mut jobs: Vec<JobInfo> = Vec::new();
        std::mem::swap(&mut jobs, &mut self.jobs);
        let mut added: Vec<JobInfo> = Vec::new();
        let mut i: usize = 0;
        while i < paths.len()
            invariant
                i <= paths.len(),
                ids.len() == paths.len(),
                job_records(added@) == pending_jobs(texts(paths@), texts(ids@)).take(i as int),
                job_records(jobs@) == before + job_records(added@),
            decreases paths.len() - i,
        {
            let job = JobInfo {
                id: ids[i].clone(),
                input_path: paths[i].clone(),
                status: JobStatus::Pending,
                progress: None,
                output_path: None,
                error: None,
            };
            proof {
                assert(job@ == pending_jobs(texts(paths@), texts(ids@))[i as int]);
            }
            let ghost added_before = job_records(added@);
            let ghost jobs_before = job_records(jobs@);
            added.push(job.clone());
            jobs.push(job);
            proof {
                assert(job_records(added@) =~= added_before.push(job@));
                assert(job_records(jobs@) =~= jobs_before.push(job@));
                assert(job_records(added@) =~= pending_jobs(texts(paths@), texts(ids@)).take(
                    i + 1,
                ));
                assert(job_records(jobs@) =~= before + job_records(added@));
            }
            i = i + 1;
        }
        proof {
            let new = pending_jobs(texts(paths@), texts(ids@));
            assert(new.take(i as int) =~= new);
            let all = before + new;
            assert forall|a: int, b: int| 0 <= a < b < all.len() implies all[a].id != all[b].id by {
                if b < before.len() {
                } else if a < before.len() {
                    assert(all[b].id == texts(ids@)[b - before.len()]);
                } else {
                    assert(all[a].id == texts(ids@)[a - before.len()]);
                    assert(all[b].id == texts(ids@)[b - before.len()]);
                }
            }
        }
        self.jobs = jobs;
        Ok(added)
    }

    /// Asks the running job to stop at its next checkpoint.
    pub fn cancel_current(&mut self)
        ensures
            final(self)@ == (QueueState { cancel_requested: true, ..old(self)@ }),
    {
        proof {
            use_type_invariant(&*self);
        }
        self.cancel_flag = true;
    }

    /// Removes every job that has reached its end. Pending and processing
    /// jobs stay, in their order.
    #[verifier::loop_isolation(false)]
    pub fn clear_finished(&mut self)
        ensures
            final(self)@ == (QueueState { jobs: unfinished(old(self)@.jobs), ..old(self)@ }),
    {
        proof {
            use_type_invariant(&*self);
        }
        let mut jobs: Vec<JobInfo> = Vec::new();
        std::mem::swap(&mut jobs, &mut self.jobs);
        let ghost before = job_records(jobs@);
        let mut kept: Vec<JobInfo> = Vec::new();
        proof {
            reveal(Seq::filter);
            assert(job_records(kept@) =~= unfinished(before.take(0)));
        }
        let mut i: usize = 0;
        while i < jobs.len()
            invariant
                i <= jobs.len(),
                before == job_records(jobs@),
                unique_ids(before),
                job_records(kept@) == unfinished(before.take(i as int)),
                unique_ids(job_records(kept@)),
                forall|a: int|
                    0 <= a < kept.len() ==> exists|k: int|
                        0 <= k < i && before[k].id == #[trigger] job_records(kept@)[a].id,
            decreases jobs.len() - i,
        {
            let status = jobs[i].status;
            let ghost kept_before = job_records(kept@);
            proof {
                let upto = before.take(i + 1);
                assert(upto.drop_last() =~= before.take(i as int));
                assert(upto.last() == jobs[i as int]@);
                lemma_unfinished_last(upto);
            }
            if status == JobStatus::Pending || status == JobStatus::Processing {
                kept.push(jobs[i].clone());
                proof {
                    let now = job_records(kept@);
                    assert(now =~= kept_before.push(jobs[i as int]@));
                    assert forall|a: int, b: int| 0 <= a < b < now.len() implies now[a].id
                        != now[b].id by {
                        if b == now.len() - 1 {
                            let k = choose|k: int|
                                0 <= k < i && before[k].id == kept_before[a].id;
                            assert(before[k].id != before[i as int].id);
                        } else {
                            assert(kept_before[a].id != kept_before[b].id);
                        }
                    }
                    assert forall|a: int| 0 <= a < kept.len() implies exists|k: int|
                        0 <= k < i + 1 && before[k].id == #[trigger] now[a].id by {
                        if a == now.len() - 1 {
                            assert(before[i as int].id == now[a].id);
                        } else {
                            let k = choose|k: int|
                                0 <= k < i && before[k].id == kept_before[a].id;
                            assert(before[k].id == now[a].id);
                        }
                    }
                }
            } else {
                proof {
                    assert forall|a: int| 0 <= a < kept.len() implies exists|k: int|
                        0 <= k < i + 1 && before[k].id == #[trigger] job_records(kept@)[a].id by {
                        let k = choose|k: int| 0 <= k < i && before[k].id == kept_before[a].id;
                        assert(before[k].id == job_records(kept@)[a].id);
                    }
                }
            }
            i = i + 1;
        }
        proof {
            assert(before.take(i as int) =~= before);
        }
        self.jobs = kept;
    }

    /// Takes up the first pending job: marks it as processing and returns it
    /// as it then stands. Returns `None` if no job is pending.
    #[verifier::loop_isolation(false)]
    pub fn get_next_pending(&mut self) -> (next: Option<JobInfo>)
        ensures
            final(self)@ == (QueueState { jobs: taken_up(old(self)@.jobs), ..old(self)@ }),
            match next {
                Some(job) => {
                    &&& first_pending(old(self)@.jobs) < old(self)@.jobs.len()
                    &&& job@ == final(self)@.jobs[first_pending(old(self)@.jobs)]
                    &&& job@.status is Processing
                },
                None => first_pending(old(self)@.jobs) == old(self)@.jobs.len(),
            },
    {
        proof {
            use_type_invariant(&*self);
            lemma_first_pending(job_records(self.jobs@));
        }
        let mut jobs: Vec<JobInfo> = Vec::new();
        std::mem::swap(&mut jobs, &mut self.jobs);
        let ghost before = job_records(jobs@);
        let mut i: usize = 0;
        while i < jobs.len()
            invariant
                i <= jobs.len(),
                before == job_records(jobs@),
                self.cancel_flag == old(self).cancel_flag,
                self.processing == old(self).processing,
                forall|k: int| 0 <= k < i ==> !(before[k].status is Pending),
            decreases jobs.len() - i,
        {
            if jobs[i].status == JobStatus::Pending {
                proof {
                    assert(before[i as int].status is Pending);
                    let first = first_pending(before);
                    if first < i {
                        assert(before[first].status is Pending);
                    }
                    assert(first == i);
                }
                let mut job = jobs[i].clone();
                job.status = JobStatus::Processing;
                jobs.set(i, job.clone());
                proof {
                    assert(job_records(jobs@) =~= taken_up(before));
                    assert forall|a: int, b: int| 0 <= a < b < before.len() implies taken_up(
                        before,
                    )[a].id != taken_up(before)[b].id by {
                        assert(before[a].id != before[b].id);
                    }
                }
                self.jobs = jobs;
                return Some(job);
            }
            i = i + 1;
        }
        proof {
            assert(first_pending(before) == before.len()) by {
                if first_pending(before) < before.len() {
                    assert(before[first_pending(before)].status is Pending);
                }
            }
        }
        self.jobs = jobs;
        None
    }

    /// Applies `update` to the first job with the id `id`. Without such a job
    /// nothing changes.
    #[verifier::loop_isolation(false)]
    pub fn update_job(&mut self, id: &str, update: JobUpdate)
        ensures
            final(self)@ == (QueueState {
                jobs: updated(old(self)@.jobs, id@, update@),
                ..old(self)@
            }),
    {
        proof {
            use_type_invariant(&*self);
            lemma_position(job_records(self.jobs@), id@);
            lemma_updated_keeps_ids(job_records(self.jobs@), id@, update@);
        }
        let mut jobs: Vec<JobInfo> = Vec::new();
        std::mem::swap(&mut jobs, &mut self.jobs);
        let ghost before = job_records(jobs@);
        let wanted = id.to_owned();
        let mut i: usize = 0;
        while i < jobs.len()
            invariant
                i <= jobs.len(),
                wanted@ == id@,
                before == job_records(jobs@),
                self.cancel_flag == old(self).cancel_flag,
                self.processing == old(self).processing,
                forall|k: int| 0 <= k < i ==> before[k].id != id@,
            decreases jobs.len() - i,
        {
            if jobs[i].id == wanted {
                proof {
                    assert(before[i as int].id == id@);
                    let first = position(before, id@);
                    if first < i {
                        assert(before[first].id == id@);
                    }
                    assert(first == i);
                }
                let mut job = jobs[i].clone();
                match update {
                    JobUpdate::Progress(progress) => {
                        job.progress = Some(progress);
                    },
                    JobUpdate::Succeeded(output_path) => {
                        job.status = JobStatus::Success;
                        job.output_path = Some(output_path);
                        job.progress = None;
                    },
                    JobUpdate::Failed(error) => {
                        job.status = JobStatus::Failed;
                        job.error = Some(error);
                        job.progress = None;
                    },
                    JobUpdate::Cancelled => {
                        job.status = JobStatus::Cancelled;
                        job.progress = None;
                    },
                }
                jobs.set(i, job);
                proof {
                    assert(job_records(jobs@) =~= updated(before, id@, update@));
                }
                self.jobs = jobs;
                return ;
            }
            i = i + 1;
        }
        proof {
            assert(position(before, id@) == before.len()) by {
                if position(before, id@) < before.len() {
                    assert(before[position(before, id@)].id == id@);
                }
            }
        }
        self.jobs = jobs;
    }

    /// Notes how far the job `job_id` has come, and returns the notice to
    /// send.
    pub fn emit_progress(&mut self, job_id: &str, progress: ProgressInfo) -> (event: QueueEvent)
        ensures
            final(self)@ == (QueueState {
                jobs: updated(old(self)@.jobs, job_id@, JobChange::Progress(progress@)),
                ..old(self)@
            }),
            event@ == Notice::Progress(progress@),
    {
        self.update_job(job_id, JobUpdate::Progress(progress.clone()));
        QueueEvent::Progress(progress)
    }

    /// Marks the job `job_id` as succeeded with its output at `output_path`,
    /// and returns the notice to send.
    pub fn mark_success(&mut self, job_id: &str, output_path: String) -> (event: QueueEvent)
        ensures
            final(self)@ == (QueueState {
                jobs: updated(old(self)@.jobs, job_id@, JobChange::Succeeded(output_path@)),
                ..old(self)@
            }),
            event@ == (Notice::JobComplete { job_id: job_id@, output_path: output_path@ }),
    {
        self.update_job(job_id, JobUpdate::Succeeded(output_path.clone()));
        QueueEvent::JobComplete { job_id: job_id.to_owned(), output_path }
    }

    /// Marks the job `job_id` as failed with the message `error`, and returns
    /// the notice to send.
    pub fn mark_failed(&mut self, job_id: &str, error: String) -> (event: QueueEvent)
        ensures
            final(self)@ == (QueueState {
                jobs: updated(old(self)@.jobs, job_id@, JobChange::Failed(error@)),
                ..old(self)@
            }),
            event@ == (Notice::JobFailed { job_id: job_id@, error: error@ }),
    {
        self.update_job(job_id, JobUpdate::Failed(error.clone()));
        QueueEvent::JobFailed { job_id: job_id.to_owned(), error }
    }

    /// Marks the job `job_id` as cancelled.
    pub fn mark_cancelled(&mut self, job_id: &str)
        ensures
            final(self)@ == (QueueState {
                jobs: updated(old(self)@.jobs, job_id@, JobChange::Cancelled),
                ..old(self)@
            }),
    {
        self.update_job(job_id, JobUpdate::Cancelled);
    }

    /// Marks that a worker is running, and says whether none was running
    /// before: of any number of callers, one at most is told to start.
    pub fn begin_processing(&mut self) -> (start: bool)
        ensures
            start == !old(self)@.worker_running,
            final(self)@ == (QueueState { worker_running: true, ..old(self)@ }),
    {
        proof {
            use_type_invariant(&*self);
        }
        let start = !self.processing;
        self.processing = true;
        start
    }

    /// Marks that no worker is running.
    pub fn end_processing(&mut self)
        ensures
            final(self)@ == (QueueState { worker_running: false, ..old(self)@ }),
    {
        proof {
            use_type_invariant(&*self);
        }
        self.processing = false;
    }

    /// Withdraws the request to cancel, so that it does not reach the next
    /// job.
    pub fn reset_cancel(&mut self)
        ensures
            final(self)@ == (QueueState { cancel_requested: false, ..old(self)@ }),
    {
        proof {
            use_type_invariant(&*self);
        }
        self.cancel_flag = false;
    }

    /// The jobs, in the order in which they were enqueued.
    pub fn jobs(&self) -> (jobs: &Vec<JobInfo>)
        ensures
            job_records(jobs@) == self@.jobs,
    {
        &self.jobs
    }

    /// Whether the running job has been asked to stop.
    pub fn is_cancel_requested(&self) -> (requested: bool)
        ensures
            requested == self@.cancel_requested,
    {
        self.cancel_flag
    }

    /// Whether a worker is running.
    pub fn is_processing(&self) -> (running: bool)
        ensures
            running == self@.worker_running,
    {
        self.processing
    }
}

impl Default for ProcessorState {
    fn default() -> (state: Self)
        ensures
            state@ == (QueueState {
                jobs: Seq::empty(),
                cancel_requested: false,
                worker_running: false,
            }),
    {
        ProcessorState::new()
    }
}

} // verus!
