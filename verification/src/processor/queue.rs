//! The decisions of the worker that runs the jobs one after another.
//!
//! A caller who has enqueued jobs asks [`start_queue_processor`] whether to
//! start a worker. The worker asks [`next_job`] for its job, runs it, and
//! hands the result to [`finish_job`], until `next_job` has none left.

use crate::processor::zip_handler::{failure_message, Failure, PipelineError};
use crate::processor::{
    first_pending, lemma_first_pending, lemma_position, taken_up, unique_ids, updated, JobChange,
    JobInfo, JobStatus, Notice, ProcessorState, QueueEvent, QueueState,
};
use vstd::prelude::*;

verus! {

/// The queue after a caller has asked whether to start a worker, and the
/// answer: a worker is started only if none is running.
pub open spec fn worker_asked(state: QueueState) -> (QueueState, bool) {
    (QueueState { worker_running: true, ..state }, !state.worker_running)
}

/// The queue after the worker has asked for its next job: the request to
/// cancel is withdrawn, and the first pending job is taken up. Without a
/// pending job the worker stops.
pub open spec fn job_asked(state: QueueState) -> QueueState {
    if first_pending(state.jobs) < state.jobs.len() {
        QueueState { jobs: taken_up(state.jobs), cancel_requested: false, ..state }
    } else {
        QueueState { cancel_requested: false, worker_running: false, ..state }
    }
}

/// What becomes of a job that ends with `outcome`. A request to cancel
/// comes before success and failure alike.
pub open spec fn verdict(cancel_requested: bool, outcome: Result<Seq<char>, Failure>) -> JobChange {
    if cancel_requested {
        JobChange::Cancelled
    } else {
        match outcome {
            Ok(path) => JobChange::Succeeded(path),
            Err(failure) => JobChange::Failed(failure_message(failure)),
        }
    }
}

/// The notice that is sent when the job `job_id` ends with `outcome`. A
/// cancelled job ends without a notice.
pub open spec fn final_notice(
    cancel_requested: bool,
    job_id: Seq<char>,
    outcome: Result<Seq<char>, Failure>,
) -> Option<Notice> {
    if cancel_requested {
        None
    } else {
        match outcome {
            Ok(path) => Some(Notice::JobComplete { job_id, output_path: path }),
            Err(failure) => Some(Notice::JobFailed { job_id, error: failure_message(failure) }),
        }
    }
}

/// The queue after the job `job_id` has ended with `outcome`.
pub open spec fn job_ended(
    state: QueueState,
    job_id: Seq<char>,
    outcome: Result<Seq<char>, Failure>,
) -> QueueState {
    QueueState {
        jobs: updated(state.jobs, job_id, verdict(state.cancel_requested, outcome)),
        ..state
    }
}

/// What the outcome `outcome` of a job says.
pub open spec fn outcome_view(outcome: Result<String, PipelineError>) -> Result<Seq<char>, Failure> {
    match outcome {
        Ok(path) => Ok(path@),
        Err(error) => Err(error@),
    }
}

/// Of two callers that ask one after the other whether to start a worker,
/// the second is never told to start; and if no worker was running, the
/// first is.
pub proof fn lemma_one_worker(state: QueueState)
    ensures
        !worker_asked(worker_asked(state).0).1,
        !state.worker_running ==> worker_asked(state).1,
        worker_asked(worker_asked(state).0).0.worker_running,
{
}

/// The worker takes up the jobs in the order in which they were enqueued:
/// the job that it is given is the first pending one, and no job before it
/// is pending.
pub proof fn lemma_jobs_in_order(state: QueueState)
    ensures
        ({
            let i = first_pending(state.jobs);
            let after = job_asked(state);
            &&& after.jobs.len() == state.jobs.len()
            &&& forall|k: int| 0 <= k < i ==> !(state.jobs[k].status is Pending)
            &&& i < state.jobs.len() ==> {
                &&& state.jobs[i].status is Pending
                &&& after.jobs[i].status is Processing
                &&& after.jobs[i].id == state.jobs[i].id
                &&& after.worker_running == state.worker_running
            }
            &&& forall|k: int| 0 <= k < state.jobs.len() && k != i ==> after.jobs[k] == state.jobs[k]
            &&& i == state.jobs.len() ==> !after.worker_running
            &&& !after.cancel_requested
        }),
{
    lemma_first_pending(state.jobs);
}

/// A job that ends without an output never ends as succeeded: it ends as
/// failed with its message, or, if it was asked to stop, as cancelled. No
/// other job changes, and the job that ended shows no progress.
pub proof fn lemma_failure_never_succeeds(state: QueueState, i: int, failure: Failure)
    requires
        unique_ids(state.jobs),
        0 <= i < state.jobs.len(),
    ensures
        ({
            let after = job_ended(state, state.jobs[i].id, Err(failure));
            &&& after.jobs.len() == state.jobs.len()
            &&& after.jobs[i].status == if state.cancel_requested {
                JobStatus::Cancelled
            } else {
                JobStatus::Failed
            }
            &&& !state.cancel_requested ==> after.jobs[i].error == Some(failure_message(failure))
            &&& after.jobs[i].output_path == state.jobs[i].output_path
            &&& after.jobs[i].progress is None
            &&& forall|k: int| 0 <= k < state.jobs.len() && k != i ==> after.jobs[k] == state.jobs[k]
        }),
{
    lemma_position(state.jobs, state.jobs[i].id);
}

/// A job that was asked to stop ends as cancelled, whatever its outcome,
/// and without a notice.
pub proof fn lemma_cancel_comes_first(
    state: QueueState,
    i: int,
    outcome: Result<Seq<char>, Failure>,
)
    requires
        unique_ids(state.jobs),
        0 <= i < state.jobs.len(),
        state.cancel_requested,
    ensures
        job_ended(state, state.jobs[i].id, outcome).jobs[i].status is Cancelled,
        job_ended(state, state.jobs[i].id, outcome).jobs[i].output_path
            == state.jobs[i].output_path,
        final_notice(state.cancel_requested, state.jobs[i].id, outcome) is None,
{
    lemma_position(state.jobs, state.jobs[i].id);
}

/// A job that ends with an output and was not asked to stop ends as
/// succeeded with the path of its output.
pub proof fn lemma_success(state: QueueState, i: int, path: Seq<char>)
    requires
        unique_ids(state.jobs),
        0 <= i < state.jobs.len(),
        !state.cancel_requested,
    ensures
        job_ended(state, state.jobs[i].id, Ok(path)).jobs[i].status is Success,
        job_ended(state, state.jobs[i].id, Ok(path)).jobs[i].output_path == Some(path),
        job_ended(state, state.jobs[i].id, Ok(path)).jobs[i].progress is None,
{
    lemma_position(state.jobs, state.jobs[i].id);
}

/// Asks whether the caller is to start a worker. A worker is to be started
/// only if none is running; from then on one counts as running.
pub fn start_queue_processor(state: &mut ProcessorState) -> (start: bool)
    ensures
        (final(state)@, start) == worker_asked(old(state)@),
{
    state.begin_processing()
}

/// The next job of the worker, taken up for processing. The request to
/// cancel is withdrawn first, so that it does not reach this job. Returns
/// `None` if no job is pending: the worker then stops and counts as stopped.
pub fn next_job(state: &mut ProcessorState) -> (job: Option<JobInfo>)
    ensures
        final(state)@ == job_asked(old(state)@),
        match job {
            Some(job) => {
                &&& first_pending(old(state)@.jobs) < old(state)@.jobs.len()
                &&& job@ == final(state)@.jobs[first_pending(old(state)@.jobs)]
                &&& job@.status is Processing
            },
            None => first_pending(old(state)@.jobs) == old(state)@.jobs.len(),
        },
{
    state.reset_cancel();
    let job = state.get_next_pending();
    if job.is_none() {
        state.end_processing();
    }
    job
}

/// Records how the job `job_id` has ended, and returns the notice to send.
/// A job that was asked to stop ends as cancelled, whatever its outcome.
pub fn finish_job(state: &mut ProcessorState, job_id: &str, outcome: Result<
    String,
    PipelineError,
>) -> (event: Option<QueueEvent>)
    ensures
        final(state)@ == job_ended(old(state)@, job_id@, outcome_view(outcome)),
        match event {
            Some(event) => Some(event@),
            None => None,
        } == final_notice(old(state)@.cancel_requested, job_id@, outcome_view(outcome)),
{
    if state.is_cancel_requested() {
        state.mark_cancelled(job_id);
        return None;
    }
    match outcome {
        Ok(path) => Some(state.mark_success(job_id, path)),
        Err(error) => Some(state.mark_failed(job_id, error.message())),
    }
}

} // verus!
