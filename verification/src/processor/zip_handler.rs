//! One job, from the archive that comes in to the archive that goes out.
//!
//! An [`ArchivePipeline`] decides; its caller acts. Each step hands the
//! caller one [`PipelineAction`] to carry out, and the caller reports what
//! came of it as a [`PipelineEvent`], together with the request to cancel as
//! it then stands. The last action of every job is
//! [`PipelineAction::Finish`]: it names the folder to remove and the result.
//!
//! The stages of a job: the archive is listed and its images are queued;
//! each image is converted under a path that no other entry of the job has,
//! a WebP image after a look at its first bytes;
//! the results and the report are written into a new archive; and the
//! archive is placed under a free name in the downloads folder. The first
//! failure ends the job, and a job that fails places nothing.
//!
//! The name of an entry is brought into its normal form before anything is
//! planned for it. An image whose name leaves the folder that it is extracted
//! into, because it starts at the root or climbs above its start, ends the
//! job.

use crate::paths::{
    change_extension, extension, extension_of_path, file_stem, file_stem_of, is_below,
    is_plain_relative, join, join_paths, leaves_folder, lemma_join_plain, lemma_normal,
    lemma_split_name, lemma_split_path, lemma_with_extension_plain, normal, normalize,
    with_extension,
};
use crate::processor::image_converter::{
    folded_extension, is_image, plan_for, probe_length, shows_animation, ConversionPlan,
    ImageConverter, Plan,
};
use crate::processor::temp_manager::{
    extract_dir, output_zip_path, staging_dir, workspace_name, TempManager,
};
use crate::processor::{ProcessingPhase, Progress, ProgressInfo};
use crate::report::{
    archive_name, nothing_gathered, record, report_of, utc_ending, ConversionEntry, Gathered,
    ProcessingReport, ReportBuilder, ReportContent, ReportFact, SkippedEntry,
};
use crate::text::{
    chars_of, decimal, ends_with, ends_with_str, lowercase_of, lowered, push_decimal, push_str,
};
use crate::utils::collision::{
    lemma_resolve_is_free, lemma_resolve_plain, resolve, CollisionManager,
};
use crate::utils::metadata::{has_exif, MetadataHandler};
use vstd::prelude::*;

verus! {

/// One entry of the archive that comes in.
#[derive(Debug)]
pub struct ArchiveEntry {
    pub name: String,
    pub is_dir: bool,
    pub size: u64,
    pub compressed_size: u64,
}

/// An image that waits to be converted. `index` is the place of its entry
/// in the archive, `name` the name of the entry as the archive has it, and
/// `path` that name in its normal form.
#[derive(Debug)]
pub struct QueuedImage {
    pub index: usize,
    pub name: String,
    pub path: String,
    pub size: u64,
    pub compressed_size: u64,
}

/// A result that waits to be packed: the file at `staging_path` goes into
/// the new archive as `zip_path`.
#[derive(Debug)]
pub struct StagedFile {
    pub staging_path: String,
    pub zip_path: String,
}

/// Why a job failed.
#[derive(Debug)]
pub enum PipelineError {
    /// The job was asked to stop.
    Cancelled,
    /// The working folders could not be created.
    Workspace,
    /// The archive could not be opened.
    ArchiveOpen,
    /// The archive could not be read.
    ArchiveRead,
    /// An entry of the archive could not be read.
    Entry(String),
    /// The archive holds no image.
    NoImages,
    /// The name of this image starts at the root or climbs above its start:
    /// the image would not stay in the folder of the job.
    UnsafeEntry(String),
    /// An image could not be converted.
    Conversion {
        entry: String,
        extension: String,
        size: u64,
        compressed_size: u64,
        transcoding: bool,
        cause: String,
    },
    /// The new archive could not be written.
    Packaging(String),
    /// There is no downloads folder.
    DownloadsMissing,
    /// The new archive could not be placed in the downloads folder.
    Placement,
    /// Every name for the new archive is taken.
    NoFreeName,
    /// The caller reported something that cannot follow the last action.
    Unexpected,
}

/// What the caller is to do next.
#[derive(Debug)]
pub enum PipelineAction {
    /// Create the folders `workspace`, `extract_dir` and `staging_dir`, open
    /// the archive at `input_path` and list its entries.
    OpenArchive { input_path: String, workspace: String, extract_dir: String, staging_dir: String },
    /// Extract the entry at `index` to `extract_path` and read the first
    /// `header_length` bytes of it, or all of it if it is shorter.
    InspectImage { index: usize, entry_name: String, extract_path: String, header_length: usize },
    /// Extract the entry at `index` to `extract_path` and carry out `plan`
    /// on it, with the result at `staging_path`.
    ProcessImage {
        index: usize,
        entry_name: String,
        extract_path: String,
        staging_path: String,
        plan: ConversionPlan,
    },
    /// Write a new archive at `archive_path` that holds `files` and, under
    /// `report_name`, `report`.
    WriteArchive {
        archive_path: String,
        files: Vec<StagedFile>,
        report: ProcessingReport,
        report_name: String,
    },
    /// Find out whether the downloads folder holds a file `file_name`.
    ProbeOutput { file_name: String },
    /// Copy the archive at `archive_path` into the downloads folder as
    /// `file_name`.
    PlaceOutput { archive_path: String, file_name: String },
    /// Remove the folder `workspace`. The job has ended with `result`: the
    /// path of its output, or the reason why there is none.
    Finish { workspace: String, result: Result<String, PipelineError> },
}

/// What came of the last action.
#[derive(Debug)]
pub enum PipelineEvent {
    /// The working folders could not be created.
    WorkspaceFailed,
    /// The archive could not be opened.
    ArchiveOpenFailed,
    /// The archive could not be read.
    ArchiveReadFailed,
    /// One of the `entries` entries of the archive could not be read, for this
    /// reason.
    EntryFailed { entries: usize, cause: String },
    /// The archive holds these entries, in this order.
    ArchiveListed(Vec<ArchiveEntry>),
    /// The image was extracted, and begins with these bytes.
    ImageInspected(Vec<u8>),
    /// The image was extracted and converted.
    ImageProcessed,
    /// The image could not be extracted or converted, for this reason.
    ImageFailed(String),
    /// The new archive was written.
    ArchiveWritten,
    /// The new archive could not be written, for this reason.
    ArchiveWriteFailed(String),
    /// There is no downloads folder.
    DownloadsMissing,
    /// The downloads folder holds the file that was asked for, or not.
    OutputProbed { exists: bool },
    /// The new archive stands at this path.
    OutputPlaced(String),
    /// The new archive could not be placed.
    OutputFailed,
}

/// One step of a job: the notices to send, in order, and then the action to
/// carry out.
#[derive(Debug)]
pub struct PipelineStep {
    pub progress: Vec<ProgressInfo>,
    pub action: PipelineAction,
}

/// Where a job stands.
#[derive(Clone, Copy, Debug, PartialEq, Eq, Structural)]
pub enum Stage {
    /// The archive is being listed.
    Listing,
    /// The first bytes of an image are being read.
    Inspecting,
    /// An image is being converted.
    Converting,
    /// The new archive is being written.
    Writing,
    /// A name for the new archive is being tried.
    Probing,
    /// The new archive is being placed.
    Placing,
    /// The job has ended.
    Finished,
}

/// What an [`ArchiveEntry`] says.
pub struct Entry {
    pub name: Seq<char>,
    pub is_dir: bool,
    pub size: u64,
    pub compressed_size: u64,
}

/// What a [`QueuedImage`] says.
pub struct Queued {
    pub index: nat,
    pub name: Seq<char>,
    pub path: Seq<char>,
    pub size: u64,
    pub compressed_size: u64,
}

/// What a [`StagedFile`] says.
pub struct Staged {
    pub staging_path: Seq<char>,
    pub zip_path: Seq<char>,
}

/// What a [`PipelineError`] says.
pub enum Failure {
    Cancelled,
    Workspace,
    ArchiveOpen,
    ArchiveRead,
    Entry(Seq<char>),
    NoImages,
    UnsafeEntry(Seq<char>),
    Conversion {
        entry: Seq<char>,
        extension: Seq<char>,
        size: u64,
        compressed_size: u64,
        transcoding: bool,
        cause: Seq<char>,
    },
    Packaging(Seq<char>),
    DownloadsMissing,
    Placement,
    NoFreeName,
    Unexpected,
}

/// What a [`PipelineAction`] says.
pub enum Task {
    OpenArchive {
        input_path: Seq<char>,
        workspace: Seq<char>,
        extract_dir: Seq<char>,
        staging_dir: Seq<char>,
    },
    InspectImage {
        index: nat,
        entry_name: Seq<char>,
        extract_path: Seq<char>,
        header_length: nat,
    },
    ProcessImage {
        index: nat,
        entry_name: Seq<char>,
        extract_path: Seq<char>,
        staging_path: Seq<char>,
        plan: Plan,
    },
    WriteArchive {
        archive_path: Seq<char>,
        files: Seq<Staged>,
        report: ReportContent,
        report_name: Seq<char>,
    },
    ProbeOutput { file_name: Seq<char> },
    PlaceOutput { archive_path: Seq<char>, file_name: Seq<char> },
    Finish { workspace: Seq<char>, result: Result<Seq<char>, Failure> },
}

/// What a [`PipelineEvent`] says.
pub enum Happening {
    WorkspaceFailed,
    ArchiveOpenFailed,
    ArchiveReadFailed,
    EntryFailed { entries: nat, cause: Seq<char> },
    ArchiveListed(Seq<Entry>),
    ImageInspected(Seq<u8>),
    ImageProcessed,
    ImageFailed(Seq<char>),
    ArchiveWritten,
    ArchiveWriteFailed(Seq<char>),
    DownloadsMissing,
    OutputProbed { exists: bool },
    OutputPlaced(Seq<char>),
    OutputFailed,
}

/// What a [`PipelineStep`] says.
pub struct Step {
    pub progress: Seq<Progress>,
    pub action: Task,
}

/// What an [`ArchivePipeline`] holds.
pub struct Pipeline {
    /// Where the job stands.
    pub stage: Stage,
    /// The archive that comes in.
    pub input_path: Seq<char>,
    /// The folder of the job.
    pub workspace: Seq<char>,
    /// The images of the archive, in the order of their entries.
    pub images: Seq<Queued>,
    /// How many of the images have been converted.
    pub done: nat,
    /// Whether the image that is being converted is known to be animated.
    pub animated: bool,
    /// The path in the new archive of the image that is being converted.
    pub current: Seq<char>,
    /// The paths in the new archive that are taken.
    pub used: Set<Seq<char>>,
    /// What the report has gathered.
    pub gathered: Gathered,
    /// The results that wait to be packed.
    pub staged: Seq<Staged>,
    /// How many names for the new archive were found taken.
    pub attempt: nat,
}

impl View for ArchiveEntry {
    type V = Entry;

    open spec fn view(&self) -> Entry {
        Entry {
            name: self.name@,
            is_dir: self.is_dir,
            size: self.size,
            compressed_size: self.compressed_size,
        }
    }
}

impl View for QueuedImage {
    type V = Queued;

    open spec fn view(&self) -> Queued {
        Queued {
            index: self.index as nat,
            name: self.name@,
            path: self.path@,
            size: self.size,
            compressed_size: self.compressed_size,
        }
    }
}

impl View for StagedFile {
    type V = Staged;

    open spec fn view(&self) -> Staged {
        Staged { staging_path: self.staging_path@, zip_path: self.zip_path@ }
    }
}

impl View for PipelineError {
    type V = Failure;

    open spec fn view(&self) -> Failure {
        match self {
            PipelineError::Cancelled => Failure::Cancelled,
            PipelineError::Workspace => Failure::Workspace,
            PipelineError::ArchiveOpen => Failure::ArchiveOpen,
            PipelineError::ArchiveRead => Failure::ArchiveRead,
            PipelineError::Entry(cause) => Failure::Entry(cause@),
            PipelineError::NoImages => Failure::NoImages,
            PipelineError::UnsafeEntry(name) => Failure::UnsafeEntry(name@),
            PipelineError::Conversion {
                entry,
                extension,
                size,
                compressed_size,
                transcoding,
                cause,
            } => Failure::Conversion {
                entry: entry@,
                extension: extension@,
                size: *size,
                compressed_size: *compressed_size,
                transcoding: *transcoding,
                cause: cause@,
            },
            PipelineError::Packaging(cause) => Failure::Packaging(cause@),
            PipelineError::DownloadsMissing => Failure::DownloadsMissing,
            PipelineError::Placement => Failure::Placement,
            PipelineError::NoFreeName => Failure::NoFreeName,
            PipelineError::Unexpected => Failure::Unexpected,
        }
    }
}

/// What the entries `entries` say.
pub open spec fn entries_of(entries: Seq<ArchiveEntry>) -> Seq<Entry> {
    Seq::new(entries.len(), |i: int| entries[i]@)
}

/// What the images `images` say.
pub open spec fn queued_of(images: Seq<QueuedImage>) -> Seq<Queued> {
    Seq::new(images.len(), |i: int| images[i]@)
}

/// What the results `files` say.
pub open spec fn staged_of(files: Seq<StagedFile>) -> Seq<Staged> {
    Seq::new(files.len(), |i: int| files[i]@)
}

/// What the notices `notices` say.
pub open spec fn notices_of(notices: Seq<ProgressInfo>) -> Seq<Progress> {
    Seq::new(notices.len(), |i: int| notices[i]@)
}

impl View for PipelineEvent {
    type V = Happening;

    open spec fn view(&self) -> Happening {
        match self {
            PipelineEvent::WorkspaceFailed => Happening::WorkspaceFailed,
            PipelineEvent::ArchiveOpenFailed => Happening::ArchiveOpenFailed,
            PipelineEvent::ArchiveReadFailed => Happening::ArchiveReadFailed,
            PipelineEvent::EntryFailed { entries, cause } => Happening::EntryFailed {
                entries: *entries as nat,
                cause: cause@,
            },
            PipelineEvent::ArchiveListed(entries) => Happening::ArchiveListed(entries_of(entries@)),
            PipelineEvent::ImageInspected(header) => Happening::ImageInspected(header@),
            PipelineEvent::ImageProcessed => Happening::ImageProcessed,
            PipelineEvent::ImageFailed(cause) => Happening::ImageFailed(cause@),
            PipelineEvent::ArchiveWritten => Happening::ArchiveWritten,
            PipelineEvent::ArchiveWriteFailed(cause) => Happening::ArchiveWriteFailed(cause@),
            PipelineEvent::DownloadsMissing => Happening::DownloadsMissing,
            PipelineEvent::OutputProbed { exists } => Happening::OutputProbed { exists: *exists },
            PipelineEvent::OutputPlaced(path) => Happening::OutputPlaced(path@),
            PipelineEvent::OutputFailed => Happening::OutputFailed,
        }
    }
}

impl View for PipelineAction {
    type V = Task;

    open spec fn view(&self) -> Task {
        match self {
            PipelineAction::OpenArchive { input_path, workspace, extract_dir, staging_dir } => {
                Task::OpenArchive {
                    input_path: input_path@,
                    workspace: workspace@,
                    extract_dir: extract_dir@,
                    staging_dir: staging_dir@,
                }
            },
            PipelineAction::InspectImage { index, entry_name, extract_path, header_length } => {
                Task::InspectImage {
                    index: *index as nat,
                    entry_name: entry_name@,
                    extract_path: extract_path@,
                    header_length: *header_length as nat,
                }
            },
            PipelineAction::ProcessImage {
                index,
                entry_name,
                extract_path,
                staging_path,
                plan,
            } => Task::ProcessImage {
                index: *index as nat,
                entry_name: entry_name@,
                extract_path: extract_path@,
                staging_path: staging_path@,
                plan: plan@,
            },
            PipelineAction::WriteArchive { archive_path, files, report, report_name } => {
                Task::WriteArchive {
                    archive_path: archive_path@,
                    files: staged_of(files@),
                    report: report@,
                    report_name: report_name@,
                }
            },
            PipelineAction::ProbeOutput { file_name } => Task::ProbeOutput {
                file_name: file_name@,
            },
            PipelineAction::PlaceOutput { archive_path, file_name } => Task::PlaceOutput {
                archive_path: archive_path@,
                file_name: file_name@,
            },
            PipelineAction::Finish { workspace, result } => Task::Finish {
                workspace: workspace@,
                result: match result {
                    Ok(path) => Ok(path@),
                    Err(error) => Err(error@),
                },
            },
        }
    }
}

impl View for PipelineStep {
    type V = Step;

    open spec fn view(&self) -> Step {
        Step { progress: notices_of(self.progress@), action: self.action@ }
    }
}

/// The words of a failure, as a job shows them.
pub open spec fn failure_message(failure: Failure) -> Seq<char> {
    match failure {
        Failure::Cancelled => "Processing cancelled"@,
        Failure::Workspace => "Failed to create temp directory"@,
        Failure::ArchiveOpen => "Failed to open input zip file"@,
        Failure::ArchiveRead => "Failed to read zip archive"@,
        Failure::Entry(cause) => cause,
        Failure::NoImages => "No image files found in zip"@,
        Failure::UnsafeEntry(name) => "Entry path does not stay inside the archive: "@ + name,
        Failure::Conversion { entry, .. } => "Failed to process image: "@ + entry,
        Failure::Packaging(cause) => cause,
        Failure::DownloadsMissing => "Could not find Downloads folder"@,
        Failure::Placement => "Failed to copy output zip to Downloads"@,
        Failure::NoFreeName => "No free name for the output zip in Downloads"@,
        Failure::Unexpected => "Unexpected event for the job"@,
    }
}

/// The reason that the report gives for a skipped archive.
pub open spec fn nested_reason() -> Seq<char> {
    "nested archive ignored"@
}

/// The name of the report inside the new archive.
pub open spec fn report_name() -> Seq<char> {
    "report.json"@
}

/// The number of names that are tried for the new archive.
pub open spec fn last_attempt() -> nat {
    0xffff_ffff_ffff_ffff
}

/// Whether the entry `name` is an archive inside the archive.
pub open spec fn is_nested_archive(name: Seq<char>) -> bool {
    has_zip_suffix(lowered(name))
}

/// Whether `name`, in lower case, ends as the name of an archive does.
pub open spec fn has_zip_suffix(name: Seq<char>) -> bool {
    ends_with(name, ".zip"@)
}

/// Whether a job converts or copies `entry`: it is a file, no archive, and
/// an image by its name in normal form.
pub open spec fn is_queued(entry: Entry) -> bool {
    !entry.is_dir && !is_nested_archive(entry.name) && is_image(normal(entry.name))
}

/// Whether a job skips `entry` with a record: it is a file and an archive.
pub open spec fn is_skipped(entry: Entry) -> bool {
    !entry.is_dir && is_nested_archive(entry.name)
}

/// The images among `entries`, in order, each with the place of its entry.
pub open spec fn queued_images(entries: Seq<Entry>) -> Seq<Queued>
    decreases entries.len(),
{
    if entries.len() == 0 {
        Seq::empty()
    } else {
        let before = queued_images(entries.drop_last());
        let entry = entries.last();
        if is_queued(entry) {
            before.push(
                Queued {
                    index: (entries.len() - 1) as nat,
                    name: entry.name,
                    path: normal(entry.name),
                    size: entry.size,
                    compressed_size: entry.compressed_size,
                },
            )
        } else {
            before
        }
    }
}

/// What the report has gathered once `entries` are scanned: every entry is
/// counted, and every archive among them is recorded as skipped.
pub open spec fn scanned(gathered: Gathered, entries: Seq<Entry>) -> Gathered
    decreases entries.len(),
{
    if entries.len() == 0 {
        gathered
    } else {
        let before = record(scanned(gathered, entries.drop_last()), ReportFact::Scanned);
        let entry = entries.last();
        if is_skipped(entry) {
            record(
                before,
                ReportFact::Skipped(SkippedEntry { path: entry.name, reason: nested_reason() }),
            )
        } else {
            before
        }
    }
}

/// The place among `images` of the first whose name leaves the folder that
/// it is joined to, or the number of images if no name does.
pub open spec fn first_unsafe(images: Seq<Queued>) -> int
    decreases images.len(),
{
    if images.len() == 0 {
        0
    } else if leaves_folder(images[0].name) {
        0
    } else {
        1 + first_unsafe(images.drop_first())
    }
}

/// The path that the entry `name` asks for in the new archive: its own, with
/// the extension `jpg` if the image is converted.
pub open spec fn desired_path(name: Seq<char>, animated: bool) -> Seq<char> {
    if plan_for(name, animated) is Transcode {
        with_extension(name, "jpg"@)
    } else {
        name
    }
}

/// The name of the new archive without its number and extension.
pub open spec fn output_stem(input_path: Seq<char>) -> Seq<char> {
    if file_stem(normal(input_path)).len() == 0 {
        "output"@
    } else {
        file_stem(normal(input_path))
    }
}

/// The name that is tried for the new archive after `attempt` names were
/// found taken.
pub open spec fn output_name(input_path: Seq<char>, attempt: nat) -> Seq<char> {
    if attempt == 0 {
        output_stem(input_path) + "-converted.zip"@
    } else {
        output_stem(input_path) + "-converted-"@ + decimal(attempt) + ".zip"@
    }
}

/// The notice that the archive is being scanned.
pub open spec fn scanning_notice(entries: nat) -> Progress {
    Progress {
        current_file: 0,
        total_files: entries,
        current_filename: "Scanning..."@,
        phase: ProcessingPhase::Scanning,
    }
}

/// The notice that the new archive is being written.
pub open spec fn packaging_notice(images: nat) -> Progress {
    Progress {
        current_file: images,
        total_files: images,
        current_filename: "Creating output zip..."@,
        phase: ProcessingPhase::Packaging,
    }
}

/// A job for the archive at `input_path` that works in `workspace`, before
/// anything has happened.
pub open spec fn initial(input_path: Seq<char>, workspace: Seq<char>) -> Pipeline {
    Pipeline {
        stage: Stage::Listing,
        input_path,
        workspace,
        images: Seq::empty(),
        done: 0,
        animated: false,
        current: Seq::empty(),
        used: Set::empty(),
        gathered: nothing_gathered(archive_name(input_path)),
        staged: Seq::empty(),
        attempt: 0,
    }
}

/// The first step of the job `job`.
pub open spec fn opening(job: Pipeline) -> Step {
    Step {
        progress: Seq::empty(),
        action: Task::OpenArchive {
            input_path: job.input_path,
            workspace: job.workspace,
            extract_dir: extract_dir(job.workspace),
            staging_dir: staging_dir(job.workspace),
        },
    }
}

/// The job `job` ends with `failure`, after the notices `progress`.
pub open spec fn failed(job: Pipeline, progress: Seq<Progress>, failure: Failure) -> (
    Pipeline,
    Step,
) {
    (
        Pipeline { stage: Stage::Finished, ..job },
        Step {
            progress,
            action: Task::Finish { workspace: job.workspace, result: Err(failure) },
        },
    )
}

/// Whether a job looks at the first bytes of the image `name` before it
/// plans what to do with it.
pub open spec fn is_inspected(name: Seq<char>) -> bool {
    folded_extension(name) == "webp"@
}

/// The job `job` turns to its next image, after the notices `progress`: it
/// announces the image, and plans it at once unless it is to be inspected.
pub open spec fn image_begun(job: Pipeline, progress: Seq<Progress>) -> (Pipeline, Step) {
    let image = job.images[job.done as int];
    let announced = progress.push(
        Progress {
            current_file: job.done + 1,
            total_files: job.images.len(),
            current_filename: image.name,
            phase: ProcessingPhase::Converting,
        },
    );
    if is_inspected(image.path) {
        (
            Pipeline { stage: Stage::Inspecting, animated: false, ..job },
            Step {
                progress: announced,
                action: Task::InspectImage {
                    index: image.index,
                    entry_name: image.name,
                    extract_path: join(extract_dir(job.workspace), image.path),
                    header_length: probe_length(),
                },
            },
        )
    } else {
        image_planned(job, announced, false)
    }
}

/// The job `job` plans its next image, after the notices `progress`. The
/// image gets a path in the new archive that no earlier image has.
pub open spec fn image_planned(job: Pipeline, progress: Seq<Progress>, animated: bool) -> (
    Pipeline,
    Step,
) {
    let image = job.images[job.done as int];
    let path = resolve(job.used, desired_path(image.path, animated));
    (
        Pipeline {
            stage: Stage::Converting,
            animated,
            current: path,
            used: job.used.insert(path),
            ..job
        },
        Step {
            progress,
            action: Task::ProcessImage {
                index: image.index,
                entry_name: image.name,
                extract_path: join(extract_dir(job.workspace), image.path),
                staging_path: join(staging_dir(job.workspace), path),
                plan: plan_for(image.path, animated),
            },
        },
    )
}

/// The job `job` has listed its archive and found `entries`.
pub open spec fn archive_listed(job: Pipeline, entries: Seq<Entry>, cancelled: bool) -> (
    Pipeline,
    Step,
) {
    let progress = seq![scanning_notice(entries.len())];
    if cancelled {
        failed(job, progress, Failure::Cancelled)
    } else {
        let listed = Pipeline {
            images: queued_images(entries),
            gathered: scanned(job.gathered, entries),
            ..job
        };
        if listed.images.len() == 0 {
            failed(listed, progress, Failure::NoImages)
        } else if first_unsafe(listed.images) < listed.images.len() {
            failed(
                listed,
                progress,
                Failure::UnsafeEntry(listed.images[first_unsafe(listed.images)].name),
            )
        } else {
            image_begun(listed, progress)
        }
    }
}

/// What the report learns when the image `image` has been handled as
/// planned and stands in the new archive as `path`.
pub open spec fn image_fact(image: Queued, path: Seq<char>, animated: bool) -> ReportFact {
    match plan_for(image.path, animated) {
        Plan::Copy => ReportFact::Copied,
        Plan::Transcode { original_format, .. } => ReportFact::Converted(
            ConversionEntry {
                original_path: image.name,
                output_path: path,
                original_format,
                metadata_preserved: has_exif(original_format),
            },
        ),
    }
}

/// The job `job` has converted its current image.
pub open spec fn image_processed(job: Pipeline, cancelled: bool, stamp: Seq<char>) -> (
    Pipeline,
    Step,
) {
    let image = job.images[job.done as int];
    let after = Pipeline {
        gathered: record(job.gathered, image_fact(image, job.current, job.animated)),
        staged: job.staged.push(
            Staged {
                staging_path: join(staging_dir(job.workspace), job.current),
                zip_path: job.current,
            },
        ),
        done: job.done + 1,
        ..job
    };
    if after.done < after.images.len() {
        if cancelled {
            failed(after, Seq::empty(), Failure::Cancelled)
        } else {
            image_begun(after, Seq::empty())
        }
    } else {
        let progress = seq![packaging_notice(after.images.len())];
        if cancelled {
            failed(after, progress, Failure::Cancelled)
        } else {
            (
                Pipeline { stage: Stage::Writing, ..after },
                Step {
                    progress,
                    action: Task::WriteArchive {
                        archive_path: output_zip_path(after.workspace),
                        files: after.staged,
                        report: report_of(after.gathered, stamp),
                        report_name: report_name(),
                    },
                },
            )
        }
    }
}

/// The failure of the job `job` to convert its current image for `cause`.
pub open spec fn conversion_failure(job: Pipeline, cause: Seq<char>) -> Failure {
    let image = job.images[job.done as int];
    Failure::Conversion {
        entry: image.name,
        extension: extension(image.path),
        size: image.size,
        compressed_size: image.compressed_size,
        transcoding: plan_for(image.path, job.animated) is Transcode,
        cause,
    }
}

/// The job `job` tries the name for its new archive that `attempt` gives.
pub open spec fn name_tried(job: Pipeline, attempt: nat) -> (Pipeline, Step) {
    (
        Pipeline { stage: Stage::Probing, attempt, ..job },
        Step {
            progress: Seq::empty(),
            action: Task::ProbeOutput { file_name: output_name(job.input_path, attempt) },
        },
    )
}

/// The job `job` has learned whether the name that it tried is taken.
pub open spec fn name_probed(job: Pipeline, exists: bool) -> (Pipeline, Step) {
    if !exists {
        (
            Pipeline { stage: Stage::Placing, ..job },
            Step {
                progress: Seq::empty(),
                action: Task::PlaceOutput {
                    archive_path: output_zip_path(job.workspace),
                    file_name: output_name(job.input_path, job.attempt),
                },
            },
        )
    } else if job.attempt < last_attempt() {
        name_tried(job, job.attempt + 1)
    } else {
        failed(job, Seq::empty(), Failure::NoFreeName)
    }
}

/// The job `job` has placed its new archive at `path`.
pub open spec fn output_placed(job: Pipeline, path: Seq<char>) -> (Pipeline, Step) {
    (
        Pipeline { stage: Stage::Finished, ..job },
        Step {
            progress: Seq::empty(),
            action: Task::Finish { workspace: job.workspace, result: Ok(path) },
        },
    )
}

/// The job after `event`, and its next step. `cancelled` says whether the
/// job has been asked to stop; `stamp` is the time that a report is
/// stamped with.
pub open spec fn next(job: Pipeline, event: Happening, cancelled: bool, stamp: Seq<char>) -> (
    Pipeline,
    Step,
) {
    match (job.stage, event) {
        (Stage::Listing, Happening::WorkspaceFailed) => failed(
            job,
            Seq::empty(),
            Failure::Workspace,
        ),
        (Stage::Listing, Happening::ArchiveOpenFailed) => failed(
            job,
            Seq::empty(),
            Failure::ArchiveOpen,
        ),
        (Stage::Listing, Happening::ArchiveReadFailed) => failed(
            job,
            Seq::empty(),
            Failure::ArchiveRead,
        ),
        (Stage::Listing, Happening::EntryFailed { entries, cause }) => failed(
            job,
            seq![scanning_notice(entries)],
            if cancelled {
                Failure::Cancelled
            } else {
                Failure::Entry(cause)
            },
        ),
        (Stage::Listing, Happening::ArchiveListed(entries)) => archive_listed(
            job,
            entries,
            cancelled,
        ),
        (Stage::Inspecting, Happening::ImageInspected(header)) => image_planned(
            job,
            Seq::empty(),
            shows_animation(header),
        ),
        (Stage::Inspecting, Happening::ImageFailed(cause)) => failed(
            job,
            Seq::empty(),
            conversion_failure(job, cause),
        ),
        (Stage::Converting, Happening::ImageProcessed) => image_processed(job, cancelled, stamp),
        (Stage::Converting, Happening::ImageFailed(cause)) => failed(
            job,
            Seq::empty(),
            conversion_failure(job, cause),
        ),
        (Stage::Writing, Happening::ArchiveWritten) => name_tried(job, 0),
        (Stage::Writing, Happening::ArchiveWriteFailed(cause)) => failed(
            job,
            Seq::empty(),
            Failure::Packaging(cause),
        ),
        (Stage::Probing, Happening::DownloadsMissing) => failed(
            job,
            Seq::empty(),
            Failure::DownloadsMissing,
        ),
        (Stage::Probing, Happening::OutputProbed { exists }) => name_probed(job, exists),
        (Stage::Placing, Happening::OutputPlaced(path)) => output_placed(job, path),
        (Stage::Placing, Happening::OutputFailed) => failed(job, Seq::empty(), Failure::Placement),
        _ => failed(job, Seq::empty(), Failure::Unexpected),
    }
}

/// The time that the report of the step `step` is stamped with.
pub open spec fn stamp_of(step: Step) -> Seq<char> {
    match step.action {
        Task::WriteArchive { report, .. } => report.timestamp,
        _ => Seq::empty(),
    }
}

/// What holds of a job at every time.
pub open spec fn valid(job: Pipeline) -> bool {
    &&& job.used.finite()
    &&& job.done <= job.images.len()
    &&& job.staged.len() == job.done
    &&& job.gathered.files_included == job.done
    &&& job.gathered.files_converted == job.gathered.conversions.len()
    &&& job.gathered.files_converted <= job.gathered.files_included
    &&& job.images.len() + job.gathered.skipped.len() <= job.gathered.files_scanned
    &&& job.attempt <= last_attempt()
    &&& forall|i: int| 0 <= i < job.staged.len() ==> job.used.contains(#[trigger] job.staged[i].zip_path)
    &&& forall|i: int, j: int|
        0 <= i < j < job.staged.len() ==> job.staged[i].zip_path != job.staged[j].zip_path
    &&& forall|i: int|
        0 <= i < job.staged.len() ==> {
            &&& is_plain_relative(#[trigger] job.staged[i].zip_path)
            &&& job.staged[i].staging_path == join(
                staging_dir(job.workspace),
                job.staged[i].zip_path,
            )
        }
    &&& forall|i: int| 0 <= i < job.images.len() ==> is_plain_relative(#[trigger] job.images[i].path)
    &&& (job.stage is Inspecting || job.stage is Converting || job.stage is Writing
        || job.stage is Probing || job.stage is Placing) ==> forall|i: int|
        0 <= i < job.images.len() ==> !leaves_folder(#[trigger] job.images[i].name)
    &&& job.stage is Listing ==> {
        &&& job.gathered == nothing_gathered(job.gathered.input_zip)
        &&& job.images.len() == 0
        &&& job.used == Set::<Seq<char>>::empty()
    }
    &&& job.stage is Inspecting ==> job.done < job.images.len() && !job.animated
    &&& job.stage is Converting ==> {
        &&& job.done < job.images.len()
        &&& job.used.contains(job.current)
        &&& is_plain_relative(job.current)
        &&& forall|i: int| 0 <= i < job.staged.len() ==> #[trigger] job.staged[i].zip_path != job.current
    }
    &&& (job.stage is Writing || job.stage is Probing || job.stage is Placing) ==> {
        &&& job.done == job.images.len()
        &&& job.done > 0
    }
}

/// Scanning counts every entry, records nothing but skips, and queues or
/// skips no entry twice.
pub proof fn lemma_scan_counts(gathered: Gathered, entries: Seq<Entry>)
    ensures
        ({
            let after = scanned(gathered, entries);
            &&& after.files_scanned == gathered.files_scanned + entries.len()
            &&& after.files_included == gathered.files_included
            &&& after.files_converted == gathered.files_converted
            &&& after.conversions == gathered.conversions
            &&& after.input_zip == gathered.input_zip
            &&& after.skipped.len() >= gathered.skipped.len()
            &&& queued_images(entries).len() + after.skipped.len() - gathered.skipped.len()
                <= entries.len()
        }),
    decreases entries.len(),
{
    if entries.len() > 0 {
        lemma_scan_counts(gathered, entries.drop_last());
    }
}

/// The normal form of a name that is an image by that form is a plain
/// relative path.
pub proof fn lemma_image_path_plain(name: Seq<char>)
    requires
        is_image(normal(name)),
    ensures
        is_plain_relative(normal(name)),
{
    lemma_normal(name);
    lemma_split_path(normal(name));
    lemma_split_name(crate::paths::file_name(normal(name)));
}

/// Every queued image is an entry of the archive that is a file, no archive,
/// and an image by its name; its path is its name in normal form, a plain
/// relative path; and the images stand in the order of their entries.
pub proof fn lemma_queued_images(entries: Seq<Entry>)
    ensures
        forall|k: int|
            0 <= k < queued_images(entries).len() ==> {
                let image = #[trigger] queued_images(entries)[k];
                &&& image.index < entries.len()
                &&& is_queued(entries[image.index as int])
                &&& image.name == entries[image.index as int].name
                &&& image.path == normal(image.name)
                &&& is_plain_relative(image.path)
                &&& image.size == entries[image.index as int].size
                &&& image.compressed_size == entries[image.index as int].compressed_size
            },
        forall|a: int, b: int|
            0 <= a < b < queued_images(entries).len() ==> queued_images(entries)[a].index
                < queued_images(entries)[b].index,
        forall|i: int|
            0 <= i < entries.len() && is_queued(entries[i]) ==> exists|k: int|
                0 <= k < queued_images(entries).len() && #[trigger] queued_images(entries)[k].index
                    == i,
    decreases entries.len(),
{
    if entries.len() > 0 {
        let front = entries.drop_last();
        lemma_queued_images(front);
        let now = queued_images(entries);
        let before = queued_images(front);
        assert forall|k: int| 0 <= k < now.len() implies {
            let image = #[trigger] now[k];
            &&& image.index < entries.len()
            &&& is_queued(entries[image.index as int])
            &&& image.name == entries[image.index as int].name
            &&& image.path == normal(image.name)
            &&& is_plain_relative(image.path)
            &&& image.size == entries[image.index as int].size
            &&& image.compressed_size == entries[image.index as int].compressed_size
        } by {
            if k < before.len() {
                assert(now[k] == before[k]);
                assert(front[before[k].index as int] == entries[before[k].index as int]);
            } else {
                lemma_image_path_plain(entries.last().name);
            }
        }
        assert forall|a: int, b: int| 0 <= a < b < now.len() implies now[a].index
            < now[b].index by {
            assert(now[a] == before[a]);
            if b < before.len() {
                assert(now[b] == before[b]);
            }
        }
        assert forall|i: int| 0 <= i < entries.len() && is_queued(entries[i]) implies exists|
            k: int,
        |
            0 <= k < now.len() && #[trigger] now[k].index == i by {
            if i < front.len() {
                assert(front[i] == entries[i]);
                let k = choose|k: int| 0 <= k < before.len() && #[trigger] before[k].index == i;
                assert(now[k].index == i);
            } else {
                assert(now[now.len() - 1].index == i);
            }
        }
    }
}

/// What [`first_unsafe`] finds: an image whose name leaves the folder, with
/// none before it.
pub proof fn lemma_first_unsafe(images: Seq<Queued>)
    ensures
        0 <= first_unsafe(images) <= images.len(),
        first_unsafe(images) < images.len() ==> leaves_folder(images[first_unsafe(images)].name),
        forall|k: int| 0 <= k < first_unsafe(images) ==> !leaves_folder(#[trigger] images[k].name),
    decreases images.len(),
{
    if images.len() > 0 && !leaves_folder(images[0].name) {
        let rest = images.drop_first();
        lemma_first_unsafe(rest);
        assert forall|k: int| 0 <= k < first_unsafe(images) implies !leaves_folder(
            #[trigger] images[k].name,
        ) by {
            if k > 0 {
                assert(rest[k - 1] == images[k]);
            }
        }
    }
}

/// The path that an image with a plain relative name asks for is a plain
/// relative path.
pub proof fn lemma_desired_path_plain(name: Seq<char>, animated: bool)
    requires
        is_plain_relative(name),
    ensures
        is_plain_relative(desired_path(name, animated)),
{
    reveal_strlit("jpg");
    lemma_with_extension_plain(name, "jpg"@);
}

/// What holds of a job at every time still holds after every step.
pub proof fn lemma_next_keeps_valid(
    job: Pipeline,
    event: Happening,
    cancelled: bool,
    stamp: Seq<char>,
)
    requires
        valid(job),
    ensures
        valid(next(job, event, cancelled, stamp).0),
{
    let after = next(job, event, cancelled, stamp).0;
    match (job.stage, event) {
        (Stage::Listing, Happening::ArchiveListed(entries)) => {
            lemma_scan_counts(job.gathered, entries);
            lemma_queued_images(entries);
            lemma_first_unsafe(queued_images(entries));
            if !cancelled && queued_images(entries).len() > 0 && first_unsafe(
                queued_images(entries),
            ) == queued_images(entries).len() {
                let listed = Pipeline {
                    images: queued_images(entries),
                    gathered: scanned(job.gathered, entries),
                    ..job
                };
                lemma_begin_keeps_valid(listed, seq![scanning_notice(entries.len())]);
            }
        },
        (Stage::Inspecting, Happening::ImageInspected(header)) => {
            lemma_plan_keeps_valid(job, Seq::empty(), shows_animation(header));
        },
        (Stage::Converting, Happening::ImageProcessed) => {
            let image = job.images[job.done as int];
            let done = Pipeline {
                gathered: record(job.gathered, image_fact(image, job.current, job.animated)),
                staged: job.staged.push(
                    Staged {
                        staging_path: join(staging_dir(job.workspace), job.current),
                        zip_path: job.current,
                    },
                ),
                done: job.done + 1,
                ..job
            };
            if done.done < done.images.len() && !cancelled {
                lemma_begin_keeps_valid(done, Seq::empty());
            }
        },
        _ => {},
    }
}

/// Turning to the next image keeps what holds of a job.
proof fn lemma_begin_keeps_valid(job: Pipeline, progress: Seq<Progress>)
    requires
        valid(Pipeline { stage: Stage::Finished, ..job }),
        job.done < job.images.len(),
        forall|i: int| 0 <= i < job.images.len() ==> !leaves_folder(#[trigger] job.images[i].name),
    ensures
        valid(image_begun(job, progress).0),
{
    let image = job.images[job.done as int];
    if !is_inspected(image.path) {
        let announced = progress.push(
            Progress {
                current_file: job.done + 1,
                total_files: job.images.len(),
                current_filename: image.name,
                phase: ProcessingPhase::Converting,
            },
        );
        lemma_plan_keeps_valid(job, announced, false);
    }
}

/// Planning the next image keeps what holds of a job: the image gets a
/// plain relative path that no earlier image of the job has.
proof fn lemma_plan_keeps_valid(job: Pipeline, progress: Seq<Progress>, animated: bool)
    requires
        valid(Pipeline { stage: Stage::Finished, ..job }),
        job.done < job.images.len(),
        forall|i: int| 0 <= i < job.images.len() ==> !leaves_folder(#[trigger] job.images[i].name),
    ensures
        valid(image_planned(job, progress, animated).0),
{
    let image = job.images[job.done as int];
    lemma_resolve_is_free(job.used, desired_path(image.path, animated));
    lemma_desired_path_plain(image.path, animated);
    lemma_resolve_plain(job.used, desired_path(image.path, animated));
}

/// A job whose archive holds no image ends at once and without a result:
/// with the failure that there are no images, or, where it has been asked
/// to stop, as cancelled.
pub proof fn lemma_no_images_no_output(
    job: Pipeline,
    entries: Seq<Entry>,
    cancelled: bool,
    stamp: Seq<char>,
)
    requires
        job.stage is Listing,
        forall|i: int| 0 <= i < entries.len() ==> !is_queued(#[trigger] entries[i]),
    ensures
        queued_images(entries).len() == 0,
        next(job, Happening::ArchiveListed(entries), cancelled, stamp).0.stage is Finished,
        next(job, Happening::ArchiveListed(entries), cancelled, stamp).1.action == (Task::Finish {
            workspace: job.workspace,
            result: Err(
                if cancelled {
                    Failure::Cancelled
                } else {
                    Failure::NoImages
                },
            ),
        }),
{
    lemma_queued_images(entries);
    if queued_images(entries).len() > 0 {
        let image = queued_images(entries)[0];
        assert(is_queued(entries[image.index as int]));
    }
}

/// A job that has been asked to stop when its archive is listed ends as
/// cancelled before any image is converted.
pub proof fn lemma_cancelled_before_first_image(
    job: Pipeline,
    entries: Seq<Entry>,
    stamp: Seq<char>,
)
    requires
        job.stage is Listing,
    ensures
        next(job, Happening::ArchiveListed(entries), true, stamp).0.stage is Finished,
        next(job, Happening::ArchiveListed(entries), true, stamp).1.action == (Task::Finish {
            workspace: job.workspace,
            result: Err(Failure::Cancelled),
        }),
{
}

/// A job that has been asked to stop when an image is done converts no
/// further image and writes no archive: it ends as cancelled.
pub proof fn lemma_cancelled_between_images(job: Pipeline, stamp: Seq<char>)
    requires
        job.stage is Converting,
    ensures
        next(job, Happening::ImageProcessed, true, stamp).0.stage is Finished,
        next(job, Happening::ImageProcessed, true, stamp).1.action == (Task::Finish {
            workspace: job.workspace,
            result: Err(Failure::Cancelled),
        }),
{
}

/// An image that cannot be extracted, inspected or converted ends its job at
/// once, with a failure that names the entry.
pub proof fn lemma_conversion_error_ends_job(
    job: Pipeline,
    cause: Seq<char>,
    cancelled: bool,
    stamp: Seq<char>,
)
    requires
        job.stage is Inspecting || job.stage is Converting,
    ensures
        next(job, Happening::ImageFailed(cause), cancelled, stamp).0.stage is Finished,
        next(job, Happening::ImageFailed(cause), cancelled, stamp).1.action == (Task::Finish {
            workspace: job.workspace,
            result: Err(conversion_failure(job, cause)),
        }),
{
}

/// The steps of a job follow one another in one order only. A job ends
/// exactly when its step is to finish, and every such step names the folder
/// of the job for removal. The new archive is written only when every
/// image is converted, and holds one file for each image beside the report.
/// It is placed only once its name was found free, and a job succeeds only
/// when the archive was placed.
pub proof fn lemma_order_of_steps(job: Pipeline, event: Happening, cancelled: bool, stamp: Seq<char>)
    requires
        valid(job),
    ensures
        ({
            let (after, step) = next(job, event, cancelled, stamp);
            &&& after.stage is Finished <==> step.action is Finish
            &&& step.action matches Task::Finish { workspace, result } ==> {
                &&& workspace == job.workspace
                &&& result matches Ok(path) ==> job.stage is Placing && event
                    == Happening::OutputPlaced(path)
            }
            &&& step.action matches Task::WriteArchive { files, report, .. } ==> {
                &&& job.stage is Converting
                &&& event is ImageProcessed
                &&& !cancelled
                &&& files.len() == job.images.len()
                &&& report.stats.files_included == job.images.len()
            }
            &&& step.action is ProbeOutput ==> job.stage is Writing && event is ArchiveWritten
                || job.stage is Probing && event == (Happening::OutputProbed { exists: true })
            &&& step.action is PlaceOutput ==> job.stage is Probing && event
                == (Happening::OutputProbed { exists: false })
            &&& step.action is InspectImage ==> !cancelled && (job.stage is Listing
                || job.stage is Converting)
            &&& step.action is ProcessImage ==> job.stage is Inspecting && event is ImageInspected
                || !cancelled && (job.stage is Listing || job.stage is Converting)
            &&& !(step.action is OpenArchive)
        }),
{
}

/// Whether `event` can come of the action that a job at `stage` has asked
/// for.
pub open spec fn fits(stage: Stage, event: Happening) -> bool {
    match stage {
        Stage::Listing => event is WorkspaceFailed || event is ArchiveOpenFailed
            || event is ArchiveReadFailed || event is EntryFailed || event is ArchiveListed,
        Stage::Inspecting => event is ImageInspected || event is ImageFailed,
        Stage::Converting => event is ImageProcessed || event is ImageFailed,
        Stage::Writing => event is ArchiveWritten || event is ArchiveWriteFailed,
        Stage::Probing => event is DownloadsMissing || event is OutputProbed,
        Stage::Placing => event is OutputPlaced || event is OutputFailed,
        Stage::Finished => false,
    }
}

/// Whether `event` says that the caller could not do what it was asked to.
pub open spec fn reports_failure(event: Happening) -> bool {
    event is WorkspaceFailed || event is ArchiveOpenFailed || event is ArchiveReadFailed
        || event is EntryFailed || event is ImageFailed || event is ArchiveWriteFailed
        || event is DownloadsMissing || event is OutputFailed
}

/// A job fails for a reason only. It ends as cancelled only if it was asked
/// to stop; without images only if its archive holds none; over an entry
/// only if the name of that entry leaves the folder; without a free name
/// only if every name was tried; and otherwise only if the caller reports a
/// failure, or something that cannot come of the last action. A job whose
/// images all convert, that is not asked to stop and whose caller reports no
/// failure goes on to its end.
pub proof fn lemma_failure_has_a_cause(
    job: Pipeline,
    event: Happening,
    cancelled: bool,
    stamp: Seq<char>,
)
    requires
        valid(job),
    ensures
        next(job, event, cancelled, stamp).1.action matches Task::Finish {
            result: Err(failure),
            ..
        } ==> match failure {
            Failure::Cancelled => cancelled,
            Failure::Unexpected => !fits(job.stage, event),
            Failure::NoImages => event matches Happening::ArchiveListed(entries) && queued_images(
                entries,
            ).len() == 0,
            Failure::UnsafeEntry(name) => leaves_folder(name),
            Failure::NoFreeName => job.attempt == last_attempt() && event
                == (Happening::OutputProbed { exists: true }),
            _ => reports_failure(event),
        },
{
    match (job.stage, event) {
        (Stage::Listing, Happening::ArchiveListed(entries)) => {
            lemma_first_unsafe(queued_images(entries));
        },
        _ => {},
    }
}

/// Every file of a job stays in the folder of the job. An image is extracted
/// to a place below the folder for extracted entries and staged at a place
/// below the folder for results, and it goes into the new archive under a
/// plain relative path. No image whose name leaves the folder is extracted.
pub proof fn lemma_files_stay_below(job: Pipeline, event: Happening, cancelled: bool, stamp: Seq<char>)
    requires
        valid(job),
    ensures
        ({
            let step = next(job, event, cancelled, stamp).1;
            &&& step.action matches Task::ProcessImage { entry_name, extract_path, staging_path, .. }
                ==> {
                &&& !leaves_folder(entry_name)
                &&& is_below(extract_dir(job.workspace), extract_path)
                &&& is_below(staging_dir(job.workspace), staging_path)
            }
            &&& step.action matches Task::InspectImage { entry_name, extract_path, .. } ==> {
                &&& !leaves_folder(entry_name)
                &&& is_below(extract_dir(job.workspace), extract_path)
            }
            &&& step.action matches Task::WriteArchive { files, .. } ==> forall|i: int|
                0 <= i < files.len() ==> {
                    &&& is_plain_relative(#[trigger] files[i].zip_path)
                    &&& is_below(staging_dir(job.workspace), files[i].staging_path)
                }
        }),
{
    lemma_next_keeps_valid(job, event, cancelled, stamp);
    let (after, step) = next(job, event, cancelled, stamp);
    match step.action {
        Task::InspectImage { entry_name, .. } => {
            let image = after.images[after.done as int];
            assert(!leaves_folder(image.name));
            lemma_join_plain(extract_dir(job.workspace), image.path);
        },
        Task::ProcessImage { entry_name, extract_path, staging_path, .. } => {
            let image = after.images[after.done as int];
            assert(!leaves_folder(image.name));
            lemma_join_plain(extract_dir(job.workspace), image.path);
            lemma_join_plain(staging_dir(job.workspace), after.current);
        },
        Task::WriteArchive { files, .. } => {
            assert forall|i: int| 0 <= i < files.len() implies {
                &&& is_plain_relative(#[trigger] files[i].zip_path)
                &&& is_below(staging_dir(job.workspace), files[i].staging_path)
            } by {
                assert(files[i] == after.staged[i]);
                lemma_join_plain(staging_dir(job.workspace), files[i].zip_path);
            }
        },
        _ => {},
    }
}

/// In the report that a job writes, the scanned files are at least the
/// included and the skipped ones together, the included files are the
/// images of the archive, and each converted file has its record.
pub proof fn lemma_report_counters(job: Pipeline, event: Happening, cancelled: bool, stamp: Seq<char>)
    requires
        valid(job),
    ensures
        next(job, event, cancelled, stamp).1.action matches Task::WriteArchive { report, .. } ==> {
            &&& report.stats.files_scanned >= report.stats.files_included
                + report.stats.files_skipped
            &&& report.stats.files_included == job.images.len()
            &&& report.stats.files_converted == report.conversions.len()
            &&& report.stats.files_converted <= report.stats.files_included
            &&& report.stats.files_skipped == report.skipped.len()
        },
{
    lemma_next_keeps_valid(job, event, cancelled, stamp);
}

/// No two files of the archive that a job writes have the same path.
pub proof fn lemma_written_paths_differ(
    job: Pipeline,
    event: Happening,
    cancelled: bool,
    stamp: Seq<char>,
)
    requires
        valid(job),
    ensures
        next(job, event, cancelled, stamp).1.action matches Task::WriteArchive { files, .. }
            ==> forall|i: int, j: int|
            0 <= i < j < files.len() ==> files[i].zip_path != files[j].zip_path,
{
    lemma_next_keeps_valid(job, event, cancelled, stamp);
}

impl Clone for StagedFile {
    fn clone(&self) -> (copy: Self)
        ensures
            copy == *self,
    {
        StagedFile { staging_path: self.staging_path.clone(), zip_path: self.zip_path.clone() }
    }
}

impl PipelineError {
    /// The failure in words, as a job shows them.
    pub fn message(&self) -> (text: String)
        ensures
            text@ == failure_message(self@),
    {
        match self {
            PipelineError::Cancelled => "Processing cancelled".to_owned(),
            PipelineError::Workspace => "Failed to create temp directory".to_owned(),
            PipelineError::ArchiveOpen => "Failed to open input zip file".to_owned(),
            PipelineError::ArchiveRead => "Failed to read zip archive".to_owned(),
            PipelineError::Entry(cause) => cause.clone(),
            PipelineError::NoImages => "No image files found in zip".to_owned(),
            PipelineError::UnsafeEntry(name) => {
                let mut text = "Entry path does not stay inside the archive: ".to_owned();
                push_str(&mut text, name.as_str());
                text
            },
            PipelineError::Conversion { entry, .. } => {
                let mut text = "Failed to process image: ".to_owned();
                push_str(&mut text, entry.as_str());
                text
            },
            PipelineError::Packaging(cause) => cause.clone(),
            PipelineError::DownloadsMissing => "Could not find Downloads folder".to_owned(),
            PipelineError::Placement => "Failed to copy output zip to Downloads".to_owned(),
            PipelineError::NoFreeName => "No free name for the output zip in Downloads".to_owned(),
            PipelineError::Unexpected => "Unexpected event for the job".to_owned(),
        }
    }
}

/// Whether `name`, in lower case, ends as the name of an archive does.
pub fn ends_as_zip(name: &str) -> (zip: bool)
    ensures
        zip == has_zip_suffix(name@),
{
    ends_with_str(&chars_of(name), ".zip")
}

/// Whether the entry `name` is an archive inside the archive.
pub fn is_nested_zip(name: &str) -> (nested: bool)
    ensures
        nested == is_nested_archive(name@),
{
    ends_as_zip(lowercase_of(name).as_str())
}

/// The name that is tried for the new archive of `input_path` after
/// `attempt` names were found taken.
pub fn output_file_name(input_path: &str, attempt: u64) -> (name: String)
    ensures
        name@ == output_name(input_path@, attempt as nat),
{
    let stem = file_stem_of(normalize(input_path).0.as_str());
    let mut name = if stem.as_str().unicode_len() == 0 {
        "output".to_owned()
    } else {
        stem
    };
    if attempt == 0 {
        push_str(&mut name, "-converted.zip");
    } else {
        push_str(&mut name, "-converted-");
        push_decimal(&mut name, attempt as u128);
        push_str(&mut name, ".zip");
    }
    name
}

/// Scans `entries`: counts each in `report`, records the archives among
/// them as skipped, and returns the images among them.
#[verifier::loop_isolation(false)]
pub fn scan_entries(
    entries: &Vec<ArchiveEntry>,
    report: &mut ReportBuilder,
    converter: &ImageConverter,
) -> (images: Vec<QueuedImage>)
    requires
        old(report)@.files_scanned + entries.len() <= usize::MAX,
    ensures
        final(report)@ == scanned(old(report)@, entries_of(entries@)),
        queued_of(images@) == queued_images(entries_of(entries@)),
{
    let ghost all = entries_of(entries@);
    let mut images: Vec<QueuedImage> = Vec::new();
    proof {
        assert(queued_of(images@) =~= queued_images(all.take(0)));
    }
    let mut i: usize = 0;
    while i < entries.len()
        invariant
            i <= entries.len(),
            report@ == scanned(old(report)@, all.take(i as int)),
            report@.files_scanned == old(report)@.files_scanned + i,
            queued_of(images@) == queued_images(all.take(i as int)),
        decreases entries.len() - i,
    {
        let entry = &entries[i];
        proof {
            let upto = all.take(i + 1);
            assert(upto.drop_last() =~= all.take(i as int));
            assert(upto.last() == entry@);
        }
        report.increment_scanned();
        if !entry.is_dir {
            if is_nested_zip(entry.name.as_str()) {
                report.add_skipped(entry.name.clone(), "nested archive ignored".to_owned());
            } else {
                let path = normalize(entry.name.as_str()).0;
                if converter.should_process(path.as_str()) {
                    let ghost before = queued_of(images@);
                    images.push(
                        QueuedImage {
                            index: i,
                            name: entry.name.clone(),
                            path,
                            size: entry.size,
                            compressed_size: entry.compressed_size,
                        },
                    );
                    proof {
                        assert(queued_of(images@) =~= before.push(
                            Queued {
                                index: i as nat,
                                name: entry.name@,
                                path: normal(entry.name@),
                                size: entry.size,
                                compressed_size: entry.compressed_size,
                            },
                        ));
                    }
                }
            }
        }
        i = i + 1;
    }
    proof {
        assert(all.take(i as int) =~= all);
    }
    images
}

/// The parts of a job.
struct Parts {
    stage: Stage,
    input_path: String,
    workspace: TempManager,
    images: Vec<QueuedImage>,
    done: usize,
    animated: bool,
    current: String,
    collisions: CollisionManager,
    report: ReportBuilder,
    staged: Vec<StagedFile>,
    attempt: u64,
    converter: ImageConverter,
}

impl View for Parts {
    type V = Pipeline;

    closed spec fn view(&self) -> Pipeline {
        Pipeline {
            stage: self.stage,
            input_path: self.input_path@,
            workspace: self.workspace@,
            images: queued_of(self.images@),
            done: self.done as nat,
            animated: self.animated,
            current: self.current@,
            used: self.collisions@,
            gathered: self.report@,
            staged: staged_of(self.staged@),
            attempt: self.attempt as nat,
        }
    }
}

impl Parts {
    /// The step that ends the job with `error`, after the notices
    /// `progress`.
    fn fail(self, progress: Vec<ProgressInfo>, error: PipelineError) -> (next: (Parts, PipelineStep))
        ensures
            (next.0@, next.1@) == failed(self@, notices_of(progress@), error@),
    {
        let workspace = self.workspace.get_path().to_owned();
        let mut parts = self;
        parts.stage = Stage::Finished;
        (parts, PipelineStep { progress, action: PipelineAction::Finish { workspace, result: Err(error) } })
    }

    /// The step that turns to the next image, after the notices `progress`.
    fn begin_image(self, progress: Vec<ProgressInfo>) -> (next: (Parts, PipelineStep))
        requires
            self@.done < self@.images.len(),
        ensures
            (next.0@, next.1@) == image_begun(self@, notices_of(progress@)),
    {
        let mut parts = self;
        let mut progress = progress;
        let ghost before = notices_of(progress@);
        let image = &parts.images[parts.done];
        assert(image@ == parts@.images[parts@.done as int]);
        let name = image.name.clone();
        let path = image.path.clone();
        let index = image.index;
        progress.push(
            ProgressInfo {
                current_file: parts.done + 1,
                total_files: parts.images.len(),
                current_filename: name.clone(),
                phase: ProcessingPhase::Converting,
            },
        );
        proof {
            assert(notices_of(progress@) =~= before.push(
                Progress {
                    current_file: (parts.done + 1) as nat,
                    total_files: parts.images.len() as nat,
                    current_filename: name@,
                    phase: ProcessingPhase::Converting,
                },
            ));
        }
        if parts.converter.wants_animation_probe(path.as_str()) {
            let extract_path = join_paths(
                parts.workspace.get_extract_dir().as_str(),
                path.as_str(),
            );
            parts.stage = Stage::Inspecting;
            parts.animated = false;
            return (
                parts,
                PipelineStep {
                    progress,
                    action: PipelineAction::InspectImage {
                        index,
                        entry_name: name,
                        extract_path,
                        header_length: 21,
                    },
                },
            );
        }
        parts.plan_image(progress, false)
    }

    /// The step that plans the next image, after the notices `progress`.
    fn plan_image(self, progress: Vec<ProgressInfo>, animated: bool) -> (next: (
        Parts,
        PipelineStep,
    ))
        requires
            self@.done < self@.images.len(),
        ensures
            (next.0@, next.1@) == image_planned(self@, notices_of(progress@), animated),
    {
        let mut parts = self;
        let image = &parts.images[parts.done];
        assert(image@ == parts@.images[parts@.done as int]);
        let name = image.name.clone();
        let source = image.path.clone();
        let index = image.index;
        let plan = parts.converter.plan(source.as_str(), animated);
        let desired = match &plan {
            ConversionPlan::Transcode { .. } => change_extension(source.as_str(), "jpg"),
            ConversionPlan::Copy => source.clone(),
        };
        let path = parts.collisions.get_unique_path(desired.as_str());
        let extract_path = join_paths(
            parts.workspace.get_extract_dir().as_str(),
            source.as_str(),
        );
        let staging_path = join_paths(parts.workspace.get_staging_dir().as_str(), path.as_str());
        parts.stage = Stage::Converting;
        parts.animated = animated;
        parts.current = path;
        (
            parts,
            PipelineStep {
                progress,
                action: PipelineAction::ProcessImage {
                    index,
                    entry_name: name,
                    extract_path,
                    staging_path,
                    plan,
                },
            },
        )
    }

    /// The step after the first bytes of the next image were read.
    fn inspected(self, header: Vec<u8>) -> (next: (Parts, PipelineStep))
        requires
            self@.done < self@.images.len(),
        ensures
            (next.0@, next.1@) == image_planned(self@, Seq::empty(), shows_animation(header@)),
    {
        let animated = self.converter.is_animated_webp(header.as_slice());
        let progress: Vec<ProgressInfo> = Vec::new();
        proof {
            assert(notices_of(progress@) =~= Seq::<Progress>::empty());
        }
        self.plan_image(progress, animated)
    }

    /// The step after an entry of the archive could not be read.
    fn unread(self, entries: usize, cause: String, cancelled: bool) -> (next: (
        Parts,
        PipelineStep,
    ))
        ensures
            (next.0@, next.1@) == failed(
                self@,
                seq![scanning_notice(entries as nat)],
                if cancelled {
                    Failure::Cancelled
                } else {
                    Failure::Entry(cause@)
                },
            ),
    {
        let mut progress: Vec<ProgressInfo> = Vec::new();
        progress.push(
            ProgressInfo {
                current_file: 0,
                total_files: entries,
                current_filename: "Scanning...".to_owned(),
                phase: ProcessingPhase::Scanning,
            },
        );
        proof {
            assert(notices_of(progress@) =~= seq![scanning_notice(entries as nat)]);
        }
        if cancelled {
            self.fail(progress, PipelineError::Cancelled)
        } else {
            self.fail(progress, PipelineError::Entry(cause))
        }
    }

    /// The step after the archive was listed.
    #[verifier::loop_isolation(false)]
    fn listed(self, entries: Vec<ArchiveEntry>, cancelled: bool) -> (next: (Parts, PipelineStep))
        requires
            valid(self@),
            self@.stage is Listing,
        ensures
            (next.0@, next.1@) == archive_listed(self@, entries_of(entries@), cancelled),
    {
        let mut progress: Vec<ProgressInfo> = Vec::new();
        progress.push(
            ProgressInfo {
                current_file: 0,
                total_files: entries.len(),
                current_filename: "Scanning...".to_owned(),
                phase: ProcessingPhase::Scanning,
            },
        );
        proof {
            assert(notices_of(progress@) =~= seq![scanning_notice(entries.len() as nat)]);
            assert(entries_of(entries@).len() == entries.len());
        }
        if cancelled {
            return self.fail(progress, PipelineError::Cancelled);
        }
        let mut parts = self;
        let images = scan_entries(&entries, &mut parts.report, &parts.converter);
        parts.images = images;
        if parts.images.len() == 0 {
            return parts.fail(progress, PipelineError::NoImages);
        }
        proof {
            lemma_first_unsafe(parts@.images);
        }
        let mut i: usize = 0;
        while i < parts.images.len()
            invariant
                i <= parts.images.len(),
                forall|k: int| 0 <= k < i ==> !leaves_folder(#[trigger] parts@.images[k].name),
            decreases parts.images.len() - i,
        {
            assert(parts@.images[i as int] == parts.images[i as int]@);
            if normalize(parts.images[i].name.as_str()).1 {
                let name = parts.images[i].name.clone();
                proof {
                    let first = first_unsafe(parts@.images);
                    if first < i {
                        assert(!leaves_folder(parts@.images[first].name));
                    }
                    if first > i {
                        assert(!leaves_folder(parts@.images[i as int].name));
                    }
                    assert(first == i);
                }
                return parts.fail(progress, PipelineError::UnsafeEntry(name));
            }
            i = i + 1;
        }
        proof {
            let first = first_unsafe(parts@.images);
            if first < parts@.images.len() {
                assert(!leaves_folder(parts@.images[first].name));
            }
        }
        parts.begin_image(progress)
    }

    /// The step after the current image was converted.
    #[verifier::loop_isolation(false)]
    fn processed(self, cancelled: bool) -> (next: (Parts, PipelineStep))
        requires
            valid(self@),
            self@.stage is Converting,
        ensures
            (next.0@, next.1@) == image_processed(self@, cancelled, stamp_of(next.1@)),
            ends_with(stamp_of(next.1@), utc_ending()) || !(next.1@.action is WriteArchive),
    {
        let mut parts = self;
        let image = &parts.images[parts.done];
        assert(image@ == parts@.images[parts@.done as int]);
        let name = image.name.clone();
        let plan = parts.converter.plan(image.path.as_str(), parts.animated);
        proof {
            assert(parts@.images.len() == parts.images.len());
            assert(parts.report@.files_included == parts.done);
        }
        match plan {
            ConversionPlan::Copy => {
                parts.report.add_copied(name, parts.current.clone());
            },
            ConversionPlan::Transcode { original_format, .. } => {
                let preserved = MetadataHandler::format_has_exif(original_format.as_str());
                parts.report.add_conversion(name, parts.current.clone(), original_format, preserved);
            },
        }
        let ghost staged_before = staged_of(parts.staged@);
        let staging_path = join_paths(
            parts.workspace.get_staging_dir().as_str(),
            parts.current.as_str(),
        );
        parts.staged.push(StagedFile { staging_path, zip_path: parts.current.clone() });
        proof {
            assert(staged_of(parts.staged@) =~= staged_before.push(
                Staged {
                    staging_path: join(staging_dir(self@.workspace), self@.current),
                    zip_path: self@.current,
                },
            ));
        }
        parts.done = parts.done + 1;
        if parts.done < parts.images.len() {
            if cancelled {
                return parts.fail_plainly(PipelineError::Cancelled);
            }
            let progress: Vec<ProgressInfo> = Vec::new();
            proof {
                assert(notices_of(progress@) =~= Seq::<Progress>::empty());
            }
            return parts.begin_image(progress);
        }
        let mut progress: Vec<ProgressInfo> = Vec::new();
        progress.push(
            ProgressInfo {
                current_file: parts.images.len(),
                total_files: parts.images.len(),
                current_filename: "Creating output zip...".to_owned(),
                phase: ProcessingPhase::Packaging,
            },
        );
        proof {
            assert(notices_of(progress@) =~= seq![packaging_notice(parts.images.len() as nat)]);
        }
        if cancelled {
            return parts.fail(progress, PipelineError::Cancelled);
        }
        let mut files: Vec<StagedFile> = Vec::new();
        let mut i: usize = 0;
        while i < parts.staged.len()
            invariant
                i <= parts.staged.len(),
                files@ == parts.staged@.take(i as int),
            decreases parts.staged.len() - i,
        {
            files.push(parts.staged[i].clone());
            i = i + 1;
        }
        proof {
            assert(files@ =~= parts.staged@);
        }
        let report = parts.report.clone().build();
        let archive_path = parts.workspace.get_output_zip_path();
        parts.stage = Stage::Writing;
        (
            parts,
            PipelineStep {
                progress,
                action: PipelineAction::WriteArchive {
                    archive_path,
                    files,
                    report,
                    report_name: "report.json".to_owned(),
                },
            },
        )
    }

    /// The failure to convert the current image for `cause`.
    fn conversion_error(&self, cause: String) -> (error: PipelineError)
        requires
            self@.done < self@.images.len(),
        ensures
            error@ == conversion_failure(self@, cause@),
    {
        let image = &self.images[self.done];
        assert(image@ == self@.images[self@.done as int]);
        let transcoding = match self.converter.plan(image.path.as_str(), self.animated) {
            ConversionPlan::Transcode { .. } => true,
            ConversionPlan::Copy => false,
        };
        PipelineError::Conversion {
            entry: image.name.clone(),
            extension: extension_of_path(image.path.as_str()),
            size: image.size,
            compressed_size: image.compressed_size,
            transcoding,
            cause,
        }
    }

    /// The step that tries the name for the new archive that `attempt`
    /// gives.
    fn try_name(self, attempt: u64) -> (next: (Parts, PipelineStep))
        ensures
            (next.0@, next.1@) == name_tried(self@, attempt as nat),
    {
        let mut parts = self;
        let file_name = output_file_name(parts.input_path.as_str(), attempt);
        parts.stage = Stage::Probing;
        parts.attempt = attempt;
        let progress: Vec<ProgressInfo> = Vec::new();
        proof {
            assert(notices_of(progress@) =~= Seq::<Progress>::empty());
        }
        (parts, PipelineStep { progress, action: PipelineAction::ProbeOutput { file_name } })
    }

    /// The step after the name that was tried was found taken or free.
    fn probed(self, exists: bool) -> (next: (Parts, PipelineStep))
        ensures
            (next.0@, next.1@) == name_probed(self@, exists),
    {
        if !exists {
            let mut parts = self;
            let file_name = output_file_name(parts.input_path.as_str(), parts.attempt);
            let archive_path = parts.workspace.get_output_zip_path();
            parts.stage = Stage::Placing;
            let progress: Vec<ProgressInfo> = Vec::new();
            proof {
                assert(notices_of(progress@) =~= Seq::<Progress>::empty());
            }
            (
                parts,
                PipelineStep {
                    progress,
                    action: PipelineAction::PlaceOutput { archive_path, file_name },
                },
            )
        } else if self.attempt < u64::MAX {
            let attempt = self.attempt + 1;
            self.try_name(attempt)
        } else {
            self.fail_plainly(PipelineError::NoFreeName)
        }
    }

    /// The step that ends the job with `error`, without a notice.
    fn fail_plainly(self, error: PipelineError) -> (next: (Parts, PipelineStep))
        ensures
            (next.0@, next.1@) == failed(self@, Seq::empty(), error@),
    {
        let progress: Vec<ProgressInfo> = Vec::new();
        proof {
            assert(notices_of(progress@) =~= Seq::<Progress>::empty());
        }
        self.fail(progress, error)
    }

    /// The step that ends the job with its output at `path`.
    fn placed(self, path: String) -> (next: (Parts, PipelineStep))
        ensures
            (next.0@, next.1@) == output_placed(self@, path@),
    {
        let workspace = self.workspace.get_path().to_owned();
        let mut parts = self;
        parts.stage = Stage::Finished;
        let progress: Vec<ProgressInfo> = Vec::new();
        proof {
            assert(notices_of(progress@) =~= Seq::<Progress>::empty());
        }
        (parts, PipelineStep { progress, action: PipelineAction::Finish { workspace, result: Ok(path) } })
    }
}

/// One job and where it stands.
pub struct ArchivePipeline {
    parts: Parts,
}

impl View for ArchivePipeline {
    type V = Pipeline;

    closed spec fn view(&self) -> Pipeline {
        self.parts@
    }
}

impl ArchivePipeline {
    /// What holds of a job at every time.
    #[verifier::type_invariant]
    pub closed spec fn well_formed(self) -> bool {
        valid(self.parts@)
    }

    /// What holds of a job at every time holds of what a pipeline holds.
    pub proof fn lemma_valid(&self)
        requires
            self.well_formed(),
        ensures
            valid(self@),
    {
    }

    /// A job for the archive at `input_path`. It works in a folder of its
    /// own below `temp_root`, named after `job_id`.
    pub fn new(job_id: &str, input_path: &str, temp_root: &str) -> (pipeline: Self)
        ensures
            pipeline@ == initial(
                input_path@,
                join(temp_root@, workspace_name(job_id@)),
            ),
    {
        let parts = Parts {
            stage: Stage::Listing,
            input_path: input_path.to_owned(),
            workspace: TempManager::new(temp_root, job_id),
            images: Vec::new(),
            done: 0,
            animated: false,
            current: String::new(),
            collisions: CollisionManager::new(),
            report: ReportBuilder::new(input_path),
            staged: Vec::new(),
            attempt: 0,
            converter: ImageConverter::new(),
        };
        proof {
            assert(parts@.images =~= Seq::<Queued>::empty());
            assert(parts@.staged =~= Seq::<Staged>::empty());
        }
        ArchivePipeline { parts }
    }

    /// The first step of the job.
    pub fn begin(&self) -> (step: PipelineStep)
        ensures
            step@ == opening(self@),
    {
        let progress: Vec<ProgressInfo> = Vec::new();
        proof {
            assert(notices_of(progress@) =~= Seq::<Progress>::empty());
        }
        PipelineStep {
            progress,
            action: PipelineAction::OpenArchive {
                input_path: self.parts.input_path.clone(),
                workspace: self.parts.workspace.get_path().to_owned(),
                extract_dir: self.parts.workspace.get_extract_dir(),
                staging_dir: self.parts.workspace.get_staging_dir(),
            },
        }
    }

    /// Where the job stands.
    pub fn stage(&self) -> (stage: Stage)
        ensures
            stage == self@.stage,
    {
        self.parts.stage
    }

    /// The job after `event`, and its next step. `cancel_requested` says
    /// whether the job has been asked to stop.
    pub fn advance(self, event: PipelineEvent, cancel_requested: bool) -> (after: (
        Self,
        PipelineStep,
    ))
        ensures
            (after.0@, after.1@) == next(self@, event@, cancel_requested, stamp_of(after.1@)),
            after.1@.action matches Task::WriteArchive { report, .. } ==> ends_with(
                report.timestamp,
                utc_ending(),
            ),
    {
        proof {
            use_type_invariant(&self);
        }
        let ghost before = self@;
        let parts = self.parts;
        let (parts, step) = match parts.stage {
            Stage::Listing => match event {
                PipelineEvent::WorkspaceFailed => parts.fail_plainly(PipelineError::Workspace),
                PipelineEvent::ArchiveOpenFailed => parts.fail_plainly(PipelineError::ArchiveOpen),
                PipelineEvent::ArchiveReadFailed => parts.fail_plainly(PipelineError::ArchiveRead),
                PipelineEvent::EntryFailed { entries, cause } => parts.unread(
                    entries,
                    cause,
                    cancel_requested,
                ),
                PipelineEvent::ArchiveListed(entries) => parts.listed(entries, cancel_requested),
                _ => parts.fail_plainly(PipelineError::Unexpected),
            },
            Stage::Inspecting => match event {
                PipelineEvent::ImageInspected(header) => parts.inspected(header),
                PipelineEvent::ImageFailed(cause) => {
                    let error = parts.conversion_error(cause);
                    parts.fail_plainly(error)
                },
                _ => parts.fail_plainly(PipelineError::Unexpected),
            },
            Stage::Converting => match event {
                PipelineEvent::ImageProcessed => parts.processed(cancel_requested),
                PipelineEvent::ImageFailed(cause) => {
                    let error = parts.conversion_error(cause);
                    parts.fail_plainly(error)
                },
                _ => parts.fail_plainly(PipelineError::Unexpected),
            },
            Stage::Writing => match event {
                PipelineEvent::ArchiveWritten => parts.try_name(0),
                PipelineEvent::ArchiveWriteFailed(cause) => parts.fail_plainly(
                    PipelineError::Packaging(cause),
                ),
                _ => parts.fail_plainly(PipelineError::Unexpected),
            },
            Stage::Probing => match event {
                PipelineEvent::DownloadsMissing => parts.fail_plainly(
                    PipelineError::DownloadsMissing,
                ),
                PipelineEvent::OutputProbed { exists } => parts.probed(exists),
                _ => parts.fail_plainly(PipelineError::Unexpected),
            },
            Stage::Placing => match event {
                PipelineEvent::OutputPlaced(path) => parts.placed(path),
                PipelineEvent::OutputFailed => parts.fail_plainly(PipelineError::Placement),
                _ => parts.fail_plainly(PipelineError::Unexpected),
            },
            Stage::Finished => parts.fail_plainly(PipelineError::Unexpected),
        };
        proof {
            lemma_next_keeps_valid(before, event@, cancel_requested, stamp_of(step@));
        }
        (ArchivePipeline { parts }, step)
    }
}

} // verus!
