//! The places of a job's working files.
//!
//! Each job works in a folder of its own below a temporary root: entries are
//! extracted into one subfolder, results are staged in another, and the new
//! archive is written beside them. A [`TempManager`] names these places; the
//! caller creates them, and removes the job's folder when the job ends.

use crate::paths::{join, join_paths};
use crate::text::push_str;
use vstd::prelude::*;

verus! {

/// The name of the folder of the job `job_id`.
pub open spec fn workspace_name(job_id: Seq<char>) -> Seq<char> {
    "file-sorter-"@ + job_id
}

/// The folder into which entries are extracted, for the job folder `root`.
pub open spec fn extract_dir(root: Seq<char>) -> Seq<char> {
    join(root, "extract"@)
}

/// The folder in which results are staged, for the job folder `root`.
pub open spec fn staging_dir(root: Seq<char>) -> Seq<char> {
    join(root, "staging"@)
}

/// The place of the new archive, for the job folder `root`.
pub open spec fn output_zip_path(root: Seq<char>) -> Seq<char> {
    join(root, "output.zip"@)
}

/// Names the working places of one job.
pub struct TempManager {
    temp_dir: String,
}

impl View for TempManager {
    type V = Seq<char>;

    /// The folder of the job.
    closed spec fn view(&self) -> Seq<char> {
        self.temp_dir@
    }
}

impl TempManager {
    /// The places of the job `job_id` below the temporary root `temp_root`.
    pub fn new(temp_root: &str, job_id: &str) -> (manager: Self)
        ensures
            manager@ == join(temp_root@, workspace_name(job_id@)),
    {
        let mut name = "file-sorter-".to_owned();
        push_str(&mut name, job_id);
        TempManager { temp_dir: join_paths(temp_root, name.as_str()) }
    }

    /// The folder of the job.
    pub fn get_path(&self) -> (path: &str)
        ensures
            path@ == self@,
    {
        self.temp_dir.as_str()
    }

    /// The place of `name` in the folder of the job.
    pub fn subdir(&self, name: &str) -> (path: String)
        ensures
            path@ == join(self@, name@),
    {
        join_paths(self.temp_dir.as_str(), name)
    }

    /// The folder into which entries are extracted.
    pub fn get_extract_dir(&self) -> (path: String)
        ensures
            path@ == extract_dir(self@),
    {
        self.subdir("extract")
    }

    /// The folder in which results are staged.
    pub fn get_staging_dir(&self) -> (path: String)
        ensures
            path@ == staging_dir(self@),
    {
        self.subdir("staging")
    }

    /// The place of the new archive.
    pub fn get_output_zip_path(&self) -> (path: String)
        ensures
            path@ == output_zip_path(self@),
    {
        self.subdir("output.zip")
    }
}

} // verus!
