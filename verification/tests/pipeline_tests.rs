// One job from the archive that comes in to the archive that goes out.

use file_sorter_lib::processor::image_converter::ConversionPlan;
use file_sorter_lib::processor::queue::{finish_job, next_job, start_queue_processor};
use file_sorter_lib::processor::zip_handler::{
    ends_as_zip, is_nested_zip, output_file_name, scan_entries, ArchiveEntry, ArchivePipeline,
    PipelineAction, PipelineError, PipelineEvent, PipelineStep, Stage,
};
use file_sorter_lib::processor::image_converter::ImageConverter;
use file_sorter_lib::processor::{JobStatus, ProcessingPhase};
use file_sorter_lib::report::ReportBuilder;
use file_sorter_lib::ProcessorState;

fn file(name: &str) -> ArchiveEntry {
    ArchiveEntry { name: name.to_string(), is_dir: false, size: 1000, compressed_size: 600 }
}

fn folder(name: &str) -> ArchiveEntry {
    ArchiveEntry { name: name.to_string(), is_dir: true, size: 0, compressed_size: 0 }
}

fn listed(names: &[&str]) -> PipelineEvent {
    PipelineEvent::ArchiveListed(names.iter().map(|n| file(n)).collect())
}

fn webp_header(flags: u8) -> Vec<u8> {
    let mut header = b"RIFF\x24\x00\x00\x00WEBPVP8X\x0a\x00\x00\x00".to_vec();
    header.push(flags);
    header
}

fn still_webp() -> Vec<u8> {
    webp_header(0x10)
}

fn animated_webp() -> Vec<u8> {
    webp_header(0x12)
}

fn failure(step: &PipelineStep) -> &PipelineError {
    match &step.action {
        PipelineAction::Finish { result: Err(error), .. } => error,
        other => panic!("the job did not fail: {:?}", other),
    }
}

fn staging_of(step: &PipelineStep) -> (usize, String, String, String) {
    match &step.action {
        PipelineAction::ProcessImage { index, entry_name, extract_path, staging_path, .. } => {
            (*index, entry_name.clone(), extract_path.clone(), staging_path.clone())
        }
        other => panic!("no image is processed: {:?}", other),
    }
}

#[test]
fn a_job_from_start_to_end() {
    let pipeline = ArchivePipeline::new("job-7", "/in/photos.zip", "/tmp");
    assert_eq!(pipeline.stage(), Stage::Listing);
    let first = pipeline.begin();
    assert!(first.progress.is_empty());
    match &first.action {
        PipelineAction::OpenArchive { input_path, workspace, extract_dir, staging_dir } => {
            assert_eq!(input_path, "/in/photos.zip");
            assert_eq!(workspace, "/tmp/file-sorter-job-7");
            assert_eq!(extract_dir, "/tmp/file-sorter-job-7/extract");
            assert_eq!(staging_dir, "/tmp/file-sorter-job-7/staging");
        }
        other => panic!("the job does not open its archive: {:?}", other),
    }

    let entries = vec![file("a.jpg"), file("b.heic"), file("nested.zip"), folder("empty/")];
    let (pipeline, step) = pipeline.advance(PipelineEvent::ArchiveListed(entries), false);
    assert_eq!(pipeline.stage(), Stage::Converting);
    assert_eq!(step.progress.len(), 2);
    assert_eq!(step.progress[0].phase, ProcessingPhase::Scanning);
    assert_eq!(step.progress[0].current_file, 0);
    assert_eq!(step.progress[0].total_files, 4);
    assert_eq!(step.progress[0].current_filename, "Scanning...");
    assert_eq!(step.progress[1].phase, ProcessingPhase::Converting);
    assert_eq!(step.progress[1].current_file, 1);
    assert_eq!(step.progress[1].total_files, 2);
    assert_eq!(step.progress[1].current_filename, "a.jpg");
    match &step.action {
        PipelineAction::ProcessImage { index, entry_name, extract_path, staging_path, plan } => {
            assert_eq!(*index, 0);
            assert_eq!(entry_name, "a.jpg");
            assert_eq!(extract_path, "/tmp/file-sorter-job-7/extract/a.jpg");
            assert_eq!(staging_path, "/tmp/file-sorter-job-7/staging/a.jpg");
            assert!(matches!(plan, ConversionPlan::Copy));
        }
        other => panic!("the first image is not processed: {:?}", other),
    }

    let (pipeline, step) = pipeline.advance(PipelineEvent::ImageProcessed, false);
    assert_eq!(pipeline.stage(), Stage::Converting);
    assert_eq!(step.progress.len(), 1);
    assert_eq!(step.progress[0].current_file, 2);
    assert_eq!(step.progress[0].total_files, 2);
    assert_eq!(step.progress[0].current_filename, "b.heic");
    match &step.action {
        PipelineAction::ProcessImage { index, entry_name, extract_path, staging_path, plan } => {
            assert_eq!(*index, 1);
            assert_eq!(entry_name, "b.heic");
            assert_eq!(extract_path, "/tmp/file-sorter-job-7/extract/b.heic");
            assert_eq!(staging_path, "/tmp/file-sorter-job-7/staging/b.jpg");
            match plan {
                ConversionPlan::Transcode { original_format, quality, .. } => {
                    assert_eq!(original_format, "HEIC");
                    assert_eq!(*quality, 95);
                }
                ConversionPlan::Copy => panic!("a HEIC image is copied"),
            }
        }
        other => panic!("the second image is not processed: {:?}", other),
    }

    let (pipeline, step) = pipeline.advance(PipelineEvent::ImageProcessed, false);
    assert_eq!(pipeline.stage(), Stage::Writing);
    assert_eq!(step.progress.len(), 1);
    assert_eq!(step.progress[0].phase, ProcessingPhase::Packaging);
    assert_eq!(step.progress[0].current_file, 2);
    assert_eq!(step.progress[0].total_files, 2);
    assert_eq!(step.progress[0].current_filename, "Creating output zip...");
    match &step.action {
        PipelineAction::WriteArchive { archive_path, files, report, report_name } => {
            assert_eq!(archive_path, "/tmp/file-sorter-job-7/output.zip");
            assert_eq!(report_name, "report.json");
            assert_eq!(files.len(), 2);
            assert_eq!(files[0].zip_path, "a.jpg");
            assert_eq!(files[0].staging_path, "/tmp/file-sorter-job-7/staging/a.jpg");
            assert_eq!(files[1].zip_path, "b.jpg");
            assert_eq!(files[1].staging_path, "/tmp/file-sorter-job-7/staging/b.jpg");
            assert_eq!(report.input_zip, "photos.zip");
            assert_eq!(report.stats.files_scanned, 4);
            assert_eq!(report.stats.files_skipped, 1);
            assert_eq!(report.stats.files_included, 2);
            assert_eq!(report.stats.files_converted, 1);
            assert_eq!(report.skipped.len(), 1);
            assert_eq!(report.skipped[0].path, "nested.zip");
            assert_eq!(report.skipped[0].reason, "nested archive ignored");
            assert_eq!(report.conversions.len(), 1);
            assert_eq!(report.conversions[0].original_path, "b.heic");
            assert_eq!(report.conversions[0].output_path, "b.jpg");
            assert_eq!(report.conversions[0].original_format, "HEIC");
            assert!(report.conversions[0].metadata_preserved);
            assert_eq!(
                report.metadata_notes,
                vec![
                    "EXIF data preserved where possible via libheif",
                    "All converted images encoded as JPEG with quality 95",
                ]
            );
            assert!(!report.timestamp.is_empty());
        }
        other => panic!("the archive is not written: {:?}", other),
    }

    let (pipeline, step) = pipeline.advance(PipelineEvent::ArchiveWritten, false);
    assert_eq!(pipeline.stage(), Stage::Probing);
    match &step.action {
        PipelineAction::ProbeOutput { file_name } => assert_eq!(file_name, "photos-converted.zip"),
        other => panic!("no name is tried: {:?}", other),
    }
    let (pipeline, step) = pipeline.advance(PipelineEvent::OutputProbed { exists: true }, false);
    match &step.action {
        PipelineAction::ProbeOutput { file_name } => assert_eq!(file_name, "photos-converted-1.zip"),
        other => panic!("no second name is tried: {:?}", other),
    }
    let (pipeline, step) = pipeline.advance(PipelineEvent::OutputProbed { exists: true }, false);
    match &step.action {
        PipelineAction::ProbeOutput { file_name } => assert_eq!(file_name, "photos-converted-2.zip"),
        other => panic!("no third name is tried: {:?}", other),
    }
    let (pipeline, step) = pipeline.advance(PipelineEvent::OutputProbed { exists: false }, true);
    assert_eq!(pipeline.stage(), Stage::Placing);
    match &step.action {
        PipelineAction::PlaceOutput { archive_path, file_name } => {
            assert_eq!(archive_path, "/tmp/file-sorter-job-7/output.zip");
            assert_eq!(file_name, "photos-converted-2.zip");
        }
        other => panic!("the archive is not placed: {:?}", other),
    }
    let placed = PipelineEvent::OutputPlaced("/home/u/Downloads/photos-converted-2.zip".to_string());
    let (pipeline, step) = pipeline.advance(placed, false);
    assert_eq!(pipeline.stage(), Stage::Finished);
    match &step.action {
        PipelineAction::Finish { workspace, result } => {
            assert_eq!(workspace, "/tmp/file-sorter-job-7");
            assert_eq!(result.as_ref().unwrap(), "/home/u/Downloads/photos-converted-2.zip");
        }
        other => panic!("the job does not finish: {:?}", other),
    }

    let (pipeline, step) = pipeline.advance(PipelineEvent::ImageProcessed, false);
    assert_eq!(pipeline.stage(), Stage::Finished);
    assert!(matches!(failure(&step), PipelineError::Unexpected));
}

#[test]
fn an_archive_without_images_fails() {
    let mut state = ProcessorState::new();
    let id = state.add_jobs(vec!["/in/docs.zip".to_string()]).unwrap()[0].id.clone();
    assert!(start_queue_processor(&mut state));
    let job = next_job(&mut state).unwrap();
    assert_eq!(job.id, id);

    let pipeline = ArchivePipeline::new(&job.id, &job.input_path, "/tmp");
    let entries = vec![file("readme.txt"), folder("pics.jpg/"), file("inner.ZIP"), file("a.jpg.zip")];
    let (pipeline, step) = pipeline.advance(PipelineEvent::ArchiveListed(entries), state.is_cancel_requested());
    assert_eq!(pipeline.stage(), Stage::Finished);
    assert_eq!(step.progress.len(), 1);
    assert_eq!(step.progress[0].phase, ProcessingPhase::Scanning);
    let error = failure(&step);
    assert!(matches!(error, PipelineError::NoImages));
    assert_eq!(error.message(), "No image files found in zip");

    let outcome = match step.action {
        PipelineAction::Finish { workspace, result } => {
            assert_eq!(workspace, format!("/tmp/file-sorter-{}", id));
            result
        }
        _ => unreachable!(),
    };
    finish_job(&mut state, &id, outcome);
    assert_eq!(state.jobs()[0].status, JobStatus::Failed);
    assert_eq!(state.jobs()[0].error.as_deref(), Some("No image files found in zip"));
    assert!(state.jobs()[0].output_path.is_none());

    let empty = ArchivePipeline::new("e", "e.zip", "/tmp");
    let (_, step) = empty.advance(PipelineEvent::ArchiveListed(Vec::new()), false);
    assert!(matches!(failure(&step), PipelineError::NoImages));
}

#[test]
fn a_job_cancelled_before_its_first_image_writes_nothing() {
    let mut state = ProcessorState::new();
    state.add_jobs(vec!["/in/photos.zip".to_string()]).unwrap();
    assert!(start_queue_processor(&mut state));
    let job = next_job(&mut state).unwrap();
    state.cancel_current();

    let pipeline = ArchivePipeline::new(&job.id, &job.input_path, "/tmp");
    let (pipeline, step) = pipeline.advance(listed(&["a.jpg", "b.png"]), state.is_cancel_requested());
    assert_eq!(pipeline.stage(), Stage::Finished);
    let error = failure(&step);
    assert!(matches!(error, PipelineError::Cancelled));
    assert_eq!(error.message(), "Processing cancelled");
    let outcome = match step.action {
        PipelineAction::Finish { result, .. } => result,
        _ => unreachable!(),
    };
    let event = finish_job(&mut state, &job.id, outcome);
    assert!(event.is_none());
    assert_eq!(state.jobs()[0].status, JobStatus::Cancelled);
    assert!(state.jobs()[0].output_path.is_none());
    assert!(state.jobs()[0].progress.is_none());
}

#[test]
fn a_job_cancelled_between_images_or_before_packaging_stops() {
    let pipeline = ArchivePipeline::new("j", "in.zip", "/t");
    let (pipeline, _) = pipeline.advance(listed(&["a.jpg", "b.png"]), false);
    let (pipeline, step) = pipeline.advance(PipelineEvent::ImageProcessed, true);
    assert_eq!(pipeline.stage(), Stage::Finished);
    assert!(step.progress.is_empty());
    assert!(matches!(failure(&step), PipelineError::Cancelled));

    let pipeline = ArchivePipeline::new("j", "in.zip", "/t");
    let (pipeline, _) = pipeline.advance(listed(&["a.jpg"]), false);
    let (pipeline, step) = pipeline.advance(PipelineEvent::ImageProcessed, true);
    assert_eq!(pipeline.stage(), Stage::Finished);
    assert_eq!(step.progress.len(), 1);
    assert_eq!(step.progress[0].phase, ProcessingPhase::Packaging);
    assert!(matches!(failure(&step), PipelineError::Cancelled));
}

#[test]
fn one_conversion_error_ends_the_job() {
    let pipeline = ArchivePipeline::new("j", "/in/mixed.zip", "/t");
    let entries = vec![
        ArchiveEntry { name: "ok.png".to_string(), is_dir: false, size: 10, compressed_size: 9 },
        ArchiveEntry { name: "dir/bad.TIFF".to_string(), is_dir: false, size: 4096, compressed_size: 1024 },
        ArchiveEntry { name: "never.jpg".to_string(), is_dir: false, size: 1, compressed_size: 1 },
    ];
    let (pipeline, _) = pipeline.advance(PipelineEvent::ArchiveListed(entries), false);
    let (pipeline, step) = pipeline.advance(PipelineEvent::ImageProcessed, false);
    assert_eq!(staging_of(&step).3, "/t/file-sorter-j/staging/dir/bad.jpg");
    let (pipeline, step) =
        pipeline.advance(PipelineEvent::ImageFailed("unsupported compression".to_string()), false);
    assert_eq!(pipeline.stage(), Stage::Finished);
    match &step.action {
        PipelineAction::Finish { workspace, result } => {
            assert_eq!(workspace, "/t/file-sorter-j");
            assert!(result.is_err());
        }
        other => panic!("the job goes on: {:?}", other),
    }
    let error = failure(&step);
    assert_eq!(error.message(), "Failed to process image: dir/bad.TIFF");
    match error {
        PipelineError::Conversion { entry, extension, size, compressed_size, transcoding, cause } => {
            assert_eq!(entry, "dir/bad.TIFF");
            assert_eq!(extension, "TIFF");
            assert_eq!(*size, 4096);
            assert_eq!(*compressed_size, 1024);
            assert!(*transcoding);
            assert_eq!(cause, "unsupported compression");
        }
        other => panic!("not a conversion error: {:?}", other),
    }

    let mut state = ProcessorState::new();
    state.add_jobs_with_ids(vec!["/in/mixed.zip".to_string()], vec!["j".to_string()]).unwrap();
    let job = state.get_next_pending().unwrap();
    let outcome = match step.action {
        PipelineAction::Finish { result, .. } => result,
        _ => unreachable!(),
    };
    finish_job(&mut state, &job.id, outcome);
    assert_eq!(state.jobs()[0].status, JobStatus::Failed);
    assert_eq!(state.jobs()[0].error.as_deref(), Some("Failed to process image: dir/bad.TIFF"));
    assert!(state.jobs()[0].output_path.is_none());
}

#[test]
fn a_copied_image_that_fails_is_not_reported_as_transcoded() {
    let pipeline = ArchivePipeline::new("j", "in.zip", "/t");
    let (pipeline, _) = pipeline.advance(listed(&["pic.gif"]), false);
    let (_, step) = pipeline.advance(PipelineEvent::ImageFailed("disk full".to_string()), false);
    match failure(&step) {
        PipelineError::Conversion { transcoding, extension, .. } => {
            assert!(!*transcoding);
            assert_eq!(extension, "gif");
        }
        other => panic!("not a conversion error: {:?}", other),
    }
}

#[test]
fn entries_that_ask_for_one_path_get_different_paths() {
    let pipeline = ArchivePipeline::new("j", "in.zip", "/t");
    let names = ["p/x.heic", "p/x.jpg", "p/x.webp", "q/x.jpg", "p/x.JPG", "p/x-1.jpg"];
    let (mut pipeline, mut step) = pipeline.advance(listed(&names), false);
    let mut staged = Vec::new();
    for _ in 0..names.len() {
        if let PipelineAction::InspectImage { entry_name, extract_path, header_length, .. } = &step.action {
            assert_eq!(entry_name, "p/x.webp");
            assert_eq!(extract_path, "/t/file-sorter-j/extract/p/x.webp");
            assert_eq!(*header_length, 21);
            assert_eq!(pipeline.stage(), Stage::Inspecting);
            let next = pipeline.advance(PipelineEvent::ImageInspected(still_webp()), false);
            pipeline = next.0;
            step = next.1;
            assert!(step.progress.is_empty());
        }
        staged.push(staging_of(&step).3);
        let next = pipeline.advance(PipelineEvent::ImageProcessed, false);
        pipeline = next.0;
        step = next.1;
    }
    assert_eq!(
        staged,
        vec![
            "/t/file-sorter-j/staging/p/x.jpg",
            "/t/file-sorter-j/staging/p/x-1.jpg",
            "/t/file-sorter-j/staging/p/x-2.jpg",
            "/t/file-sorter-j/staging/q/x.jpg",
            "/t/file-sorter-j/staging/p/x.JPG",
            "/t/file-sorter-j/staging/p/x-1-1.jpg",
        ]
    );
    match &step.action {
        PipelineAction::WriteArchive { files, report, .. } => {
            let paths: Vec<&str> = files.iter().map(|f| f.zip_path.as_str()).collect();
            assert_eq!(paths, vec!["p/x.jpg", "p/x-1.jpg", "p/x-2.jpg", "q/x.jpg", "p/x.JPG", "p/x-1-1.jpg"]);
            assert_eq!(report.stats.files_scanned, 6);
            assert_eq!(report.stats.files_included, 6);
            assert_eq!(report.stats.files_converted, 2);
            assert_eq!(report.conversions[0].output_path, "p/x.jpg");
            assert_eq!(report.conversions[1].original_path, "p/x.webp");
            assert_eq!(report.conversions[1].output_path, "p/x-2.jpg");
            assert_eq!(report.conversions[1].original_format, "WEBP");
        }
        other => panic!("the archive is not written: {:?}", other),
    }
}

#[test]
fn failures_outside_the_conversion() {
    let cases: Vec<(PipelineEvent, &str)> = vec![
        (PipelineEvent::WorkspaceFailed, "Failed to create temp directory"),
        (PipelineEvent::ArchiveOpenFailed, "Failed to open input zip file"),
        (PipelineEvent::ArchiveReadFailed, "Failed to read zip archive"),
        (
            PipelineEvent::EntryFailed { entries: 5, cause: "bad entry 3".to_string() },
            "bad entry 3",
        ),
        (PipelineEvent::ImageProcessed, "Unexpected event for the job"),
    ];
    for (event, message) in cases {
        let pipeline = ArchivePipeline::new("j", "in.zip", "/t");
        let (pipeline, step) = pipeline.advance(event, false);
        assert_eq!(pipeline.stage(), Stage::Finished);
        assert_eq!(failure(&step).message(), message);
    }

    let pipeline = ArchivePipeline::new("j", "in.zip", "/t");
    let (pipeline, _) = pipeline.advance(listed(&["a.jpg"]), false);
    let (pipeline, _) = pipeline.advance(PipelineEvent::ImageProcessed, false);
    let (_, step) = pipeline.advance(PipelineEvent::ArchiveWriteFailed("no space".to_string()), false);
    assert!(matches!(failure(&step), PipelineError::Packaging(_)));
    assert_eq!(failure(&step).message(), "no space");

    let pipeline = ArchivePipeline::new("j", "in.zip", "/t");
    let (pipeline, _) = pipeline.advance(listed(&["a.jpg"]), false);
    let (pipeline, _) = pipeline.advance(PipelineEvent::ImageProcessed, false);
    let (pipeline, _) = pipeline.advance(PipelineEvent::ArchiveWritten, false);
    let (_, step) = pipeline.advance(PipelineEvent::DownloadsMissing, false);
    assert!(matches!(failure(&step), PipelineError::DownloadsMissing));
    assert_eq!(failure(&step).message(), "Could not find Downloads folder");

    let pipeline = ArchivePipeline::new("j", "in.zip", "/t");
    let (pipeline, _) = pipeline.advance(listed(&["a.jpg"]), false);
    let (pipeline, _) = pipeline.advance(PipelineEvent::ImageProcessed, false);
    let (pipeline, _) = pipeline.advance(PipelineEvent::ArchiveWritten, false);
    let (pipeline, _) = pipeline.advance(PipelineEvent::OutputProbed { exists: false }, false);
    let (_, step) = pipeline.advance(PipelineEvent::OutputFailed, false);
    assert!(matches!(failure(&step), PipelineError::Placement));
    assert_eq!(failure(&step).message(), "Failed to copy output zip to Downloads");
    assert_eq!(PipelineError::NoFreeName.message(), "No free name for the output zip in Downloads");
}

#[test]
fn names_of_the_output() {
    assert_eq!(output_file_name("/in/photos.zip", 0), "photos-converted.zip");
    assert_eq!(output_file_name("/in/photos.zip", 1), "photos-converted-1.zip");
    assert_eq!(output_file_name("/in/photos.zip", 10), "photos-converted-10.zip");
    assert_eq!(output_file_name("photos.2024.zip", 407), "photos.2024-converted-407.zip");
    assert_eq!(output_file_name("/in/", 0), "in-converted.zip");
    assert_eq!(output_file_name("/in/./photos.zip", 0), "photos-converted.zip");
    assert_eq!(output_file_name("/", 0), "output-converted.zip");
    assert_eq!(output_file_name("..", 2), "output-converted-2.zip");
    assert_eq!(output_file_name("", 3), "output-converted-3.zip");
    assert_eq!(
        output_file_name("a.zip", u64::MAX),
        "a-converted-18446744073709551615.zip"
    );
}

#[test]
fn nested_archives_are_known_by_their_name() {
    for name in ["a.zip", "A.ZIP", "dir/b.Zip", ".zip", "x.jpg.zip"] {
        assert!(is_nested_zip(name), "{}", name);
    }
    for name in ["a.zip.jpg", "zip", "a.zi", "a.zipx", "", "a.zip/", "a.Z\u{130}P"] {
        assert!(!is_nested_zip(name), "{}", name);
    }
    assert!(ends_as_zip("a.zip"));
    assert!(ends_as_zip(".zip"));
    assert!(!ends_as_zip("a.ZIP"));
    assert!(!ends_as_zip("zip"));
}

#[test]
fn an_image_that_would_leave_the_job_folder_fails_the_job() {
    for name in ["/x.jpg", "../x.jpg", "a/../../x.png", "/../etc/x.tif", "./../x.gif", "//x.bmp"] {
        let pipeline = ArchivePipeline::new("j", "in.zip", "/t");
        let (pipeline, step) = pipeline.advance(listed(&["ok/first.jpg", name, "later.png"]), false);
        assert_eq!(pipeline.stage(), Stage::Finished, "{}", name);
        assert_eq!(step.progress.len(), 1);
        match failure(&step) {
            PipelineError::UnsafeEntry(entry) => assert_eq!(entry, name),
            other => panic!("{} was taken in: {:?}", name, other),
        }
        assert_eq!(
            failure(&step).message(),
            format!("Entry path does not stay inside the archive: {}", name)
        );
    }

    // Entries that are not images are never extracted, whatever their names.
    let pipeline = ArchivePipeline::new("j", "in.zip", "/t");
    let (pipeline, step) = pipeline.advance(listed(&["/etc/passwd", "../up.zip", "fine/pic.jpg"]), false);
    assert_eq!(pipeline.stage(), Stage::Converting);
    assert_eq!(staging_of(&step).2, "/t/file-sorter-j/extract/fine/pic.jpg");
}

#[test]
fn names_that_stay_inside_are_brought_into_normal_form() {
    let names = ["./x.gif", "a//x.heic", "a/./x.bmp", "b/../x.png", "a/b/../c/./d.jpg", "a/x.tif"];
    let pipeline = ArchivePipeline::new("j", "in.zip", "/t");
    let (mut pipeline, mut step) = pipeline.advance(listed(&names), false);
    let mut seen = Vec::new();
    for _ in 0..names.len() {
        assert_eq!(pipeline.stage(), Stage::Converting);
        seen.push(staging_of(&step));
        let next = pipeline.advance(PipelineEvent::ImageProcessed, false);
        pipeline = next.0;
        step = next.1;
    }
    let expected = [
        (0, "./x.gif", "x.gif", "x.gif"),
        (1, "a//x.heic", "a/x.heic", "a/x.jpg"),
        (2, "a/./x.bmp", "a/x.bmp", "a/x-1.jpg"),
        (3, "b/../x.png", "x.png", "x.png"),
        (4, "a/b/../c/./d.jpg", "a/c/d.jpg", "a/c/d.jpg"),
        (5, "a/x.tif", "a/x.tif", "a/x-2.jpg"),
    ];
    for (got, want) in seen.iter().zip(expected.iter()) {
        assert_eq!(got.0, want.0);
        assert_eq!(got.1, want.1);
        assert_eq!(got.2, format!("/t/file-sorter-j/extract/{}", want.2));
        assert_eq!(got.3, format!("/t/file-sorter-j/staging/{}", want.3));
    }
    match &step.action {
        PipelineAction::WriteArchive { files, report, .. } => {
            let paths: Vec<&str> = files.iter().map(|f| f.zip_path.as_str()).collect();
            assert_eq!(paths, vec!["x.gif", "a/x.jpg", "a/x-1.jpg", "x.png", "a/c/d.jpg", "a/x-2.jpg"]);
            assert_eq!(report.conversions[0].original_path, "a//x.heic");
            assert_eq!(report.conversions[0].output_path, "a/x.jpg");
            assert!(report.timestamp.ends_with("+00:00"));
        }
        other => panic!("the archive is not written: {:?}", other),
    }
    let (pipeline, _) = pipeline.advance(PipelineEvent::ArchiveWritten, false);
    let (pipeline, _) = pipeline.advance(PipelineEvent::OutputProbed { exists: false }, false);
    let (pipeline, step) = pipeline.advance(PipelineEvent::OutputPlaced("/d/in-converted.zip".to_string()), false);
    assert_eq!(pipeline.stage(), Stage::Finished);
    assert!(matches!(&step.action, PipelineAction::Finish { result: Ok(path), .. } if path == "/d/in-converted.zip"));
}

#[test]
fn an_entry_that_cannot_be_read_fails_after_the_scanning_notice() {
    let pipeline = ArchivePipeline::new("j", "in.zip", "/t");
    let unread = PipelineEvent::EntryFailed { entries: 9, cause: "bad header".to_string() };
    let (pipeline, step) = pipeline.advance(unread, false);
    assert_eq!(pipeline.stage(), Stage::Finished);
    assert_eq!(step.progress.len(), 1);
    assert_eq!(step.progress[0].phase, ProcessingPhase::Scanning);
    assert_eq!(step.progress[0].current_file, 0);
    assert_eq!(step.progress[0].total_files, 9);
    assert_eq!(step.progress[0].current_filename, "Scanning...");
    assert!(matches!(failure(&step), PipelineError::Entry(cause) if cause == "bad header"));

    let pipeline = ArchivePipeline::new("j", "in.zip", "/t");
    let unread = PipelineEvent::EntryFailed { entries: 9, cause: "bad header".to_string() };
    let (_, step) = pipeline.advance(unread, true);
    assert_eq!(step.progress.len(), 1);
    assert!(matches!(failure(&step), PipelineError::Cancelled));
}

#[test]
fn scanning_counts_and_queues() {
    let entries = vec![
        file("one.JPG"),
        folder("album.png/"),
        file("album.png/two.avif"),
        file("notes.txt"),
        file("more.zip"),
        ArchiveEntry { name: "big.bmp".to_string(), is_dir: false, size: 77, compressed_size: 33 },
    ];
    let mut report = ReportBuilder::new("in.zip");
    let images = scan_entries(&entries, &mut report, &ImageConverter::new());
    let queued: Vec<(usize, &str)> = images.iter().map(|i| (i.index, i.name.as_str())).collect();
    assert_eq!(queued, vec![(0, "one.JPG"), (2, "album.png/two.avif"), (5, "big.bmp")]);
    assert_eq!(images[1].path, "album.png/two.avif");

    assert_eq!(images[2].size, 77);
    assert_eq!(images[2].compressed_size, 33);
    assert_eq!(report.files_scanned(), 6);
    assert_eq!(report.files_skipped(), 1);
    assert_eq!(report.files_included(), 0);
    assert_eq!(report.input_zip_name(), "in.zip");

    let odd = vec![file("./a//b.png"), file("c.jpg/."), file("../d.gif"), file("e.jpg/..")];
    let mut report = ReportBuilder::new("in.zip");
    let images = scan_entries(&odd, &mut report, &ImageConverter::new());
    let queued: Vec<(&str, &str)> = images.iter().map(|i| (i.name.as_str(), i.path.as_str())).collect();
    assert_eq!(queued, vec![("./a//b.png", "a/b.png"), ("c.jpg/.", "c.jpg"), ("../d.gif", "d.gif")]);
}

#[test]
fn an_animated_webp_image_is_copied_under_its_own_name() {
    let pipeline = ArchivePipeline::new("j", "in.zip", "/t");
    let (pipeline, step) = pipeline.advance(listed(&["a/moving.webp", "a/still.WebP"]), false);
    assert_eq!(pipeline.stage(), Stage::Inspecting);
    assert_eq!(step.progress.len(), 2);
    assert_eq!(step.progress[1].current_filename, "a/moving.webp");
    assert!(matches!(step.action, PipelineAction::InspectImage { index: 0, .. }));

    let (pipeline, step) = pipeline.advance(PipelineEvent::ImageInspected(animated_webp()), true);
    assert_eq!(pipeline.stage(), Stage::Converting);
    match &step.action {
        PipelineAction::ProcessImage { staging_path, plan, .. } => {
            assert_eq!(staging_path, "/t/file-sorter-j/staging/a/moving.webp");
            assert!(matches!(plan, ConversionPlan::Copy));
        }
        other => panic!("the image is not processed: {:?}", other),
    }

    let (pipeline, step) = pipeline.advance(PipelineEvent::ImageProcessed, false);
    assert_eq!(pipeline.stage(), Stage::Inspecting);
    assert_eq!(step.progress.len(), 1);
    assert_eq!(step.progress[0].current_file, 2);
    let (pipeline, step) = pipeline.advance(PipelineEvent::ImageInspected(still_webp()), false);
    match &step.action {
        PipelineAction::ProcessImage { staging_path, plan, .. } => {
            assert_eq!(staging_path, "/t/file-sorter-j/staging/a/still.jpg");
            assert!(matches!(plan, ConversionPlan::Transcode { .. }));
        }
        other => panic!("the image is not processed: {:?}", other),
    }

    let (_, step) = pipeline.advance(PipelineEvent::ImageProcessed, false);
    match &step.action {
        PipelineAction::WriteArchive { files, report, .. } => {
            assert_eq!(files[0].zip_path, "a/moving.webp");
            assert_eq!(files[1].zip_path, "a/still.jpg");
            assert_eq!(report.stats.files_included, 2);
            assert_eq!(report.stats.files_converted, 1);
            assert_eq!(report.conversions[0].original_path, "a/still.WebP");
            assert_eq!(report.conversions[0].original_format, "WEBP");
        }
        other => panic!("the archive is not written: {:?}", other),
    }
}

#[test]
fn a_webp_image_that_cannot_be_inspected_fails_the_job() {
    let pipeline = ArchivePipeline::new("j", "in.zip", "/t");
    let (pipeline, _) = pipeline.advance(listed(&["x.webp"]), false);
    let (pipeline, step) = pipeline.advance(PipelineEvent::ImageFailed("bad crc".to_string()), false);
    assert_eq!(pipeline.stage(), Stage::Finished);
    match failure(&step) {
        PipelineError::Conversion { entry, transcoding, cause, .. } => {
            assert_eq!(entry, "x.webp");
            assert!(*transcoding);
            assert_eq!(cause, "bad crc");
        }
        other => panic!("not a conversion error: {:?}", other),
    }

    let pipeline = ArchivePipeline::new("j", "in.zip", "/t");
    let (pipeline, _) = pipeline.advance(listed(&["x.webp"]), false);
    let (_, step) = pipeline.advance(PipelineEvent::ImageProcessed, false);
    assert!(matches!(failure(&step), PipelineError::Unexpected));
}
