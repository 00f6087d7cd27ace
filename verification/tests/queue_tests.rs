// The job list and the worker's decisions.

use file_sorter_lib::processor::queue::{finish_job, next_job, start_queue_processor};
use file_sorter_lib::processor::zip_handler::PipelineError;
use file_sorter_lib::processor::{
    JobStatus, JobUpdate, ProcessingPhase, ProgressInfo, QueueError, QueueEvent,
};
use file_sorter_lib::ProcessorState;

fn paths(names: &[&str]) -> Vec<String> {
    names.iter().map(|n| n.to_string()).collect()
}

fn progress(current: usize, total: usize, name: &str) -> ProgressInfo {
    ProgressInfo {
        current_file: current,
        total_files: total,
        current_filename: name.to_string(),
        phase: ProcessingPhase::Converting,
    }
}

#[test]
fn new_state_is_idle_and_empty() {
    let state = ProcessorState::new();
    assert!(state.jobs().is_empty());
    assert!(!state.is_cancel_requested());
    assert!(!state.is_processing());
    let state = ProcessorState::default();
    assert!(state.jobs().is_empty());
}

#[test]
fn same_path_twice_gives_two_pending_jobs_in_order() {
    let mut state = ProcessorState::new();
    let jobs = state.add_jobs(paths(&["/in/a.zip", "/in/a.zip"])).unwrap();
    assert_eq!(jobs.len(), 2);
    assert_ne!(jobs[0].id, jobs[1].id);
    for job in &jobs {
        assert_eq!(job.input_path, "/in/a.zip");
        assert_eq!(job.status, JobStatus::Pending);
        assert!(job.progress.is_none());
        assert!(job.output_path.is_none());
        assert!(job.error.is_none());
    }
    assert_eq!(state.jobs().len(), 2);
    assert_eq!(state.jobs()[0].id, jobs[0].id);
    assert_eq!(state.jobs()[1].id, jobs[1].id);

    assert!(start_queue_processor(&mut state));
    let first = next_job(&mut state).unwrap();
    assert_eq!(first.id, jobs[0].id);
    assert_eq!(first.status, JobStatus::Processing);
    assert_eq!(state.jobs()[0].status, JobStatus::Processing);
    assert_eq!(state.jobs()[1].status, JobStatus::Pending);
    let event = finish_job(&mut state, &first.id, Ok("/out/a-converted.zip".to_string()));
    assert!(matches!(event, Some(QueueEvent::JobComplete { .. })));

    let second = next_job(&mut state).unwrap();
    assert_eq!(second.id, jobs[1].id);
    finish_job(&mut state, &second.id, Ok("/out/a-converted-1.zip".to_string()));
    assert!(state.is_processing());
    assert!(next_job(&mut state).is_none());
    assert!(!state.is_processing());
    assert_eq!(state.jobs()[0].status, JobStatus::Success);
    assert_eq!(state.jobs()[0].output_path.as_deref(), Some("/out/a-converted.zip"));
    assert_eq!(state.jobs()[1].status, JobStatus::Success);
    assert_eq!(state.jobs()[1].output_path.as_deref(), Some("/out/a-converted-1.zip"));
}

#[test]
fn job_ids_are_random_uuids() {
    let mut state = ProcessorState::new();
    let jobs = state.add_jobs(paths(&["a", "b", "c"])).unwrap();
    for job in &jobs {
        assert_eq!(job.id.len(), 36);
        assert_eq!(job.id.matches('-').count(), 4);
    }
    assert_ne!(jobs[0].id, jobs[1].id);
    assert_ne!(jobs[1].id, jobs[2].id);
    assert_ne!(jobs[0].id, jobs[2].id);
}

#[test]
fn only_one_worker_is_started() {
    let mut state = ProcessorState::new();
    assert!(!state.is_processing());
    let first = start_queue_processor(&mut state);
    let second = start_queue_processor(&mut state);
    assert!(first);
    assert!(!second);
    assert!(state.is_processing());
    assert!(next_job(&mut state).is_none());
    assert!(!state.is_processing());
    assert!(start_queue_processor(&mut state));
}

#[test]
fn jobs_with_given_ids() {
    let mut state = ProcessorState::new();
    let added = state
        .add_jobs_with_ids(paths(&["x.zip", "y.zip"]), paths(&["id-1", "id-2"]))
        .unwrap();
    assert_eq!(added[0].id, "id-1");
    assert_eq!(added[0].input_path, "x.zip");
    assert_eq!(added[1].id, "id-2");
    assert_eq!(added[1].input_path, "y.zip");
    assert_eq!(state.jobs().len(), 2);

    let taken = state.add_jobs_with_ids(paths(&["z.zip"]), paths(&["id-2"]));
    match taken {
        Err(QueueError::DuplicateId(id)) => assert_eq!(id, "id-2"),
        _ => panic!("a taken id was accepted"),
    }
    assert_eq!(state.jobs().len(), 2);

    let twice = state.add_jobs_with_ids(paths(&["p.zip", "q.zip"]), paths(&["n", "n"]));
    match twice {
        Err(error) => {
            assert!(matches!(error, QueueError::DuplicateId(_)));
            assert_eq!(error.message(), "Failed to enqueue jobs: duplicate job id n");
        }
        Ok(_) => panic!("an id given twice was accepted"),
    }
    assert_eq!(state.jobs().len(), 2);

    let short = state.add_jobs_with_ids(paths(&["p.zip", "q.zip"]), paths(&["only"]));
    match short {
        Err(error) => {
            assert!(matches!(error, QueueError::IdCountMismatch));
            assert_eq!(error.message(), "Failed to enqueue jobs: one id is needed for each path");
        }
        Ok(_) => panic!("too few ids were accepted"),
    }
    assert_eq!(state.jobs().len(), 2);

    let none = state.add_jobs_with_ids(Vec::new(), Vec::new()).unwrap();
    assert!(none.is_empty());
    assert_eq!(state.jobs().len(), 2);
}

#[test]
fn updates_reach_the_job_with_the_id() {
    let mut state = ProcessorState::new();
    state
        .add_jobs_with_ids(paths(&["a", "b", "c"]), paths(&["1", "2", "3"]))
        .unwrap();

    let event = state.emit_progress("2", progress(3, 7, "pic.heic"));
    assert_eq!(event.name(), "processing-progress");
    match event {
        QueueEvent::Progress(p) => {
            assert_eq!(p.current_file, 3);
            assert_eq!(p.total_files, 7);
            assert_eq!(p.current_filename, "pic.heic");
            assert_eq!(p.phase, ProcessingPhase::Converting);
        }
        _ => panic!("not a progress notice"),
    }
    let shown = state.jobs()[1].progress.as_ref().unwrap();
    assert_eq!(shown.current_file, 3);
    assert_eq!(shown.current_filename, "pic.heic");
    assert!(state.jobs()[0].progress.is_none());
    assert!(state.jobs()[2].progress.is_none());
    assert_eq!(state.jobs()[1].status, JobStatus::Pending);

    let event = state.mark_success("2", "/out/b.zip".to_string());
    assert_eq!(event.name(), "job-complete");
    match event {
        QueueEvent::JobComplete { job_id, output_path } => {
            assert_eq!(job_id, "2");
            assert_eq!(output_path, "/out/b.zip");
        }
        _ => panic!("not a completion notice"),
    }
    assert_eq!(state.jobs()[1].status, JobStatus::Success);
    assert_eq!(state.jobs()[1].output_path.as_deref(), Some("/out/b.zip"));
    assert!(state.jobs()[1].progress.is_none());

    let event = state.mark_failed("1", "boom".to_string());
    assert_eq!(event.name(), "job-failed");
    match event {
        QueueEvent::JobFailed { job_id, error } => {
            assert_eq!(job_id, "1");
            assert_eq!(error, "boom");
        }
        _ => panic!("not a failure notice"),
    }
    assert_eq!(state.jobs()[0].status, JobStatus::Failed);
    assert_eq!(state.jobs()[0].error.as_deref(), Some("boom"));

    state.emit_progress("3", progress(1, 1, "x"));
    state.mark_cancelled("3");
    assert_eq!(state.jobs()[2].status, JobStatus::Cancelled);
    assert!(state.jobs()[2].progress.is_none());
    assert!(state.jobs()[2].error.is_none());

    state.update_job("nobody", JobUpdate::Failed("lost".to_string()));
    state.mark_cancelled("nobody");
    assert_eq!(state.jobs()[0].status, JobStatus::Failed);
    assert_eq!(state.jobs()[1].status, JobStatus::Success);
    assert_eq!(state.jobs()[2].status, JobStatus::Cancelled);
    assert_eq!(state.jobs().len(), 3);
}

#[test]
fn clearing_keeps_pending_and_processing_jobs() {
    let mut state = ProcessorState::new();
    state
        .add_jobs_with_ids(
            paths(&["a", "b", "c", "d", "e"]),
            paths(&["1", "2", "3", "4", "5"]),
        )
        .unwrap();
    state.mark_success("1", "o".to_string());
    state.mark_failed("3", "e".to_string());
    state.mark_cancelled("5");
    let running = state.get_next_pending().unwrap();
    assert_eq!(running.id, "2");

    state.clear_finished();
    let left: Vec<&str> = state.jobs().iter().map(|j| j.id.as_str()).collect();
    assert_eq!(left, vec!["2", "4"]);
    assert_eq!(state.jobs()[0].status, JobStatus::Processing);
    assert_eq!(state.jobs()[1].status, JobStatus::Pending);

    state.clear_finished();
    let left: Vec<&str> = state.jobs().iter().map(|j| j.id.as_str()).collect();
    assert_eq!(left, vec!["2", "4"]);

    let mut empty = ProcessorState::new();
    empty.clear_finished();
    assert!(empty.jobs().is_empty());
}

#[test]
fn next_pending_is_the_first_pending() {
    let mut state = ProcessorState::new();
    assert!(state.get_next_pending().is_none());
    state
        .add_jobs_with_ids(paths(&["a", "b", "c"]), paths(&["1", "2", "3"]))
        .unwrap();
    state.mark_failed("1", "e".to_string());
    let job = state.get_next_pending().unwrap();
    assert_eq!(job.id, "2");
    assert_eq!(job.input_path, "b");
    assert_eq!(job.status, JobStatus::Processing);
    let job = state.get_next_pending().unwrap();
    assert_eq!(job.id, "3");
    assert!(state.get_next_pending().is_none());
    assert_eq!(state.jobs()[0].status, JobStatus::Failed);
}

#[test]
fn cancellation_comes_before_success_and_failure() {
    let mut state = ProcessorState::new();
    state
        .add_jobs_with_ids(paths(&["a", "b", "c"]), paths(&["1", "2", "3"]))
        .unwrap();
    assert!(start_queue_processor(&mut state));

    let job = next_job(&mut state).unwrap();
    state.cancel_current();
    assert!(state.is_cancel_requested());
    let event = finish_job(&mut state, &job.id, Ok("/out/a.zip".to_string()));
    assert!(event.is_none());
    assert_eq!(state.jobs()[0].status, JobStatus::Cancelled);
    assert!(state.jobs()[0].output_path.is_none());

    let job = next_job(&mut state).unwrap();
    assert!(!state.is_cancel_requested());
    assert_eq!(job.id, "2");
    state.cancel_current();
    let event = finish_job(&mut state, &job.id, Err(PipelineError::Cancelled));
    assert!(event.is_none());
    assert_eq!(state.jobs()[1].status, JobStatus::Cancelled);
    assert!(state.jobs()[1].error.is_none());

    let job = next_job(&mut state).unwrap();
    assert_eq!(job.id, "3");
    let event = finish_job(&mut state, &job.id, Err(PipelineError::NoImages));
    match event {
        Some(QueueEvent::JobFailed { job_id, error }) => {
            assert_eq!(job_id, "3");
            assert_eq!(error, "No image files found in zip");
        }
        _ => panic!("a failed job sent no failure notice"),
    }
    assert_eq!(state.jobs()[2].status, JobStatus::Failed);
    assert_eq!(state.jobs()[2].error.as_deref(), Some("No image files found in zip"));
    assert!(state.jobs()[2].output_path.is_none());
}

#[test]
fn cancel_without_a_running_job_does_not_reach_the_next_job() {
    let mut state = ProcessorState::new();
    state.cancel_current();
    state.add_jobs_with_ids(paths(&["a"]), paths(&["1"])).unwrap();
    assert!(start_queue_processor(&mut state));
    let job = next_job(&mut state).unwrap();
    assert!(!state.is_cancel_requested());
    finish_job(&mut state, &job.id, Ok("o".to_string()));
    assert_eq!(state.jobs()[0].status, JobStatus::Success);
}
