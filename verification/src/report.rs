//! The audit report of one job: counters, one record per converted or skipped
//! entry, and notes on what became of the metadata.
//!
//! A [`ReportBuilder`] gathers the facts while a job runs; [`ReportBuilder::build_at`]
//! turns them into a [`ProcessingReport`] for a given timestamp.

use crate::paths::{file_name, file_name_of, normal, normalize};
use crate::text::{ends_with, texts};
use crate::utils::metadata::{preservation_note, MetadataHandler};
use vstd::hash_set::StringHashSet;
use vstd::prelude::*;

verus! {

/// The counters of a report.
#[derive(Debug)]
pub struct ReportStats {
    pub files_scanned: usize,
    pub files_included: usize,
    pub files_converted: usize,
    pub files_skipped: usize,
}

/// One entry that was converted to another format.
#[derive(Debug)]
pub struct ConversionRecord {
    pub original_path: String,
    pub output_path: String,
    pub original_format: String,
    pub metadata_preserved: bool,
}

/// One entry that was left out of the output.
#[derive(Debug)]
pub struct SkippedRecord {
    pub path: String,
    pub reason: String,
}

/// The finished report of a job.
#[derive(Debug)]
pub struct ProcessingReport {
    pub app_version: String,
    pub timestamp: String,
    pub input_zip: String,
    pub stats: ReportStats,
    pub conversions: Vec<ConversionRecord>,
    pub skipped: Vec<SkippedRecord>,
    pub metadata_notes: Vec<String>,
}

/// What a [`ConversionRecord`] says.
pub struct ConversionEntry {
    pub original_path: Seq<char>,
    pub output_path: Seq<char>,
    pub original_format: Seq<char>,
    pub metadata_preserved: bool,
}

/// What a [`SkippedRecord`] says.
pub struct SkippedEntry {
    pub path: Seq<char>,
    pub reason: Seq<char>,
}

/// The counters of a report as numbers.
pub struct Counts {
    pub files_scanned: nat,
    pub files_included: nat,
    pub files_converted: nat,
    pub files_skipped: nat,
}

/// What a [`ProcessingReport`] says.
pub struct ReportContent {
    pub app_version: Seq<char>,
    pub timestamp: Seq<char>,
    pub input_zip: Seq<char>,
    pub stats: Counts,
    pub conversions: Seq<ConversionEntry>,
    pub skipped: Seq<SkippedEntry>,
    pub metadata_notes: Seq<Seq<char>>,
}

/// What a [`ReportBuilder`] has gathered.
pub struct Gathered {
    pub input_zip: Seq<char>,
    pub conversions: Seq<ConversionEntry>,
    pub skipped: Seq<SkippedEntry>,
    pub files_scanned: nat,
    pub files_included: nat,
    pub files_converted: nat,
}

impl View for ReportStats {
    type V = Counts;

    open spec fn view(&self) -> Counts {
        Counts {
            files_scanned: self.files_scanned as nat,
            files_included: self.files_included as nat,
            files_converted: self.files_converted as nat,
            files_skipped: self.files_skipped as nat,
        }
    }
}

impl View for ConversionRecord {
    type V = ConversionEntry;

    open spec fn view(&self) -> ConversionEntry {
        ConversionEntry {
            original_path: self.original_path@,
            output_path: self.output_path@,
            original_format: self.original_format@,
            metadata_preserved: self.metadata_preserved,
        }
    }
}

impl View for SkippedRecord {
    type V = SkippedEntry;

    open spec fn view(&self) -> SkippedEntry {
        SkippedEntry { path: self.path@, reason: self.reason@ }
    }
}

/// The entries that the records `records` stand for.
pub open spec fn conversion_entries(records: Seq<ConversionRecord>) -> Seq<ConversionEntry> {
    Seq::new(records.len(), |i: int| records[i]@)
}

/// The entries that the records `records` stand for.
pub open spec fn skipped_entries(records: Seq<SkippedRecord>) -> Seq<SkippedEntry> {
    Seq::new(records.len(), |i: int| records[i]@)
}

impl View for ProcessingReport {
    type V = ReportContent;

    open spec fn view(&self) -> ReportContent {
        ReportContent {
            app_version: self.app_version@,
            timestamp: self.timestamp@,
            input_zip: self.input_zip@,
            stats: self.stats@,
            conversions: conversion_entries(self.conversions@),
            skipped: skipped_entries(self.skipped@),
            metadata_notes: texts(self.metadata_notes@),
        }
    }
}

/// The version that every report names.
pub open spec fn app_version() -> Seq<char> {
    "1.0.0"@
}

/// The name a report gives to an archive whose path has no file name.
pub open spec fn unnamed_archive() -> Seq<char> {
    "unknown.zip"@
}

/// The name that a report gives to the archive at `path`: the last component
/// of the path in its normal form.
pub open spec fn archive_name(path: Seq<char>) -> Seq<char> {
    if file_name(normal(path)).len() == 0 {
        unnamed_archive()
    } else {
        file_name(normal(path))
    }
}

/// The note that names the quality of the encoded images.
pub open spec fn quality_note() -> Seq<char> {
    "All converted images encoded as JPEG with quality 95"@
}

/// The source formats of `conversions`, in order.
pub open spec fn formats_of(conversions: Seq<ConversionEntry>) -> Seq<Seq<char>> {
    Seq::new(conversions.len(), |i: int| conversions[i].original_format)
}

/// `items` without repetitions: each item stays where it first occurs.
pub open spec fn distinct(items: Seq<Seq<char>>) -> Seq<Seq<char>>
    decreases items.len(),
{
    if items.len() == 0 {
        Seq::empty()
    } else {
        let before = distinct(items.drop_last());
        if before.contains(items.last()) {
            before
        } else {
            before.push(items.last())
        }
    }
}

/// The notes of a report: one per distinct source format, in the order in
/// which the formats first occur, then the quality note if anything was
/// converted.
pub open spec fn metadata_notes(gathered: Gathered) -> Seq<Seq<char>> {
    let formats = distinct(formats_of(gathered.conversions));
    let notes = Seq::new(formats.len(), |i: int| preservation_note(formats[i]));
    if gathered.files_converted > 0 {
        notes.push(quality_note())
    } else {
        notes
    }
}

/// The report that is built from `gathered` at the time `timestamp`.
pub open spec fn report_of(gathered: Gathered, timestamp: Seq<char>) -> ReportContent {
    ReportContent {
        app_version: app_version(),
        timestamp,
        input_zip: gathered.input_zip,
        stats: Counts {
            files_scanned: gathered.files_scanned,
            files_included: gathered.files_included,
            files_converted: gathered.files_converted,
            files_skipped: gathered.skipped.len(),
        },
        conversions: gathered.conversions,
        skipped: gathered.skipped,
        metadata_notes: metadata_notes(gathered),
    }
}

/// One thing that a job tells its report builder.
pub enum ReportFact {
    /// An entry of the archive was looked at.
    Scanned,
    /// An entry was converted.
    Converted(ConversionEntry),
    /// An entry was copied as it is.
    Copied,
    /// An entry was left out.
    Skipped(SkippedEntry),
}

/// What has been gathered once `fact` is added to `gathered`.
pub open spec fn record(gathered: Gathered, fact: ReportFact) -> Gathered {
    match fact {
        ReportFact::Scanned => Gathered { files_scanned: gathered.files_scanned + 1, ..gathered },
        ReportFact::Converted(entry) => Gathered {
            conversions: gathered.conversions.push(entry),
            files_included: gathered.files_included + 1,
            files_converted: gathered.files_converted + 1,
            ..gathered
        },
        ReportFact::Copied => Gathered { files_included: gathered.files_included + 1, ..gathered },
        ReportFact::Skipped(entry) => Gathered {
            skipped: gathered.skipped.push(entry),
            ..gathered
        },
    }
}

/// What a builder for the archive named `input_zip` has gathered at first.
pub open spec fn nothing_gathered(input_zip: Seq<char>) -> Gathered {
    Gathered {
        input_zip,
        conversions: Seq::empty(),
        skipped: Seq::empty(),
        files_scanned: 0,
        files_included: 0,
        files_converted: 0,
    }
}

/// What has been gathered once all of `facts` are added, in order.
pub open spec fn record_all(input_zip: Seq<char>, facts: Seq<ReportFact>) -> Gathered
    decreases facts.len(),
{
    if facts.len() == 0 {
        nothing_gathered(input_zip)
    } else {
        record(record_all(input_zip, facts.drop_last()), facts.last())
    }
}

/// How many of `facts` are conversions.
pub open spec fn count_converted(facts: Seq<ReportFact>) -> nat
    decreases facts.len(),
{
    if facts.len() == 0 {
        0
    } else {
        count_converted(facts.drop_last()) + if facts.last() is Converted {
            1nat
        } else {
            0nat
        }
    }
}

/// How many of `facts` are copies.
pub open spec fn count_copied(facts: Seq<ReportFact>) -> nat
    decreases facts.len(),
{
    if facts.len() == 0 {
        0
    } else {
        count_copied(facts.drop_last()) + if facts.last() is Copied {
            1nat
        } else {
            0nat
        }
    }
}

/// How many of `facts` are skips.
pub open spec fn count_skipped(facts: Seq<ReportFact>) -> nat
    decreases facts.len(),
{
    if facts.len() == 0 {
        0
    } else {
        count_skipped(facts.drop_last()) + if facts.last() is Skipped {
            1nat
        } else {
            0nat
        }
    }
}

/// How many of `facts` are scans.
pub open spec fn count_scanned(facts: Seq<ReportFact>) -> nat
    decreases facts.len(),
{
    if facts.len() == 0 {
        0
    } else {
        count_scanned(facts.drop_last()) + if facts.last() is Scanned {
            1nat
        } else {
            0nat
        }
    }
}

/// Whatever a job tells its builder, the counters of the report add up: the
/// included files are the converted ones and the copied ones, every
/// conversion and every skip has its record, and the scanned files are
/// counted one by one.
pub proof fn lemma_counters_add_up(input_zip: Seq<char>, facts: Seq<ReportFact>, timestamp: Seq<char>)
    ensures
        ({
            let stats = report_of(record_all(input_zip, facts), timestamp).stats;
            &&& stats.files_included == stats.files_converted + count_copied(facts)
            &&& stats.files_converted == count_converted(facts)
            &&& stats.files_skipped == count_skipped(facts)
            &&& stats.files_scanned == count_scanned(facts)
            &&& report_of(record_all(input_zip, facts), timestamp).conversions.len()
                == stats.files_converted
        }),
    decreases facts.len(),
{
    if facts.len() > 0 {
        lemma_counters_add_up(input_zip, facts.drop_last(), timestamp);
    }
}

/// Where every scanned entry is converted, copied or skipped at most once,
/// the scanned files are at least the included and the skipped ones together.
pub proof fn lemma_scanned_covers_the_rest(
    input_zip: Seq<char>,
    facts: Seq<ReportFact>,
    timestamp: Seq<char>,
)
    requires
        count_converted(facts) + count_copied(facts) + count_skipped(facts) <= count_scanned(facts),
    ensures
        ({
            let stats = report_of(record_all(input_zip, facts), timestamp).stats;
            stats.files_scanned >= stats.files_included + stats.files_skipped
        }),
{
    lemma_counters_add_up(input_zip, facts, timestamp);
}

/// [`distinct`] keeps exactly the items of the sequence, each once.
pub proof fn lemma_distinct(items: Seq<Seq<char>>)
    ensures
        distinct(items).no_duplicates(),
        distinct(items).len() <= items.len(),
        forall|x: Seq<char>| distinct(items).contains(x) <==> items.contains(x),
    decreases items.len(),
{
    if items.len() > 0 {
        let front = items.drop_last();
        let last = items.last();
        lemma_distinct(front);
        let before = distinct(front);
        let now = distinct(items);
        assert(forall|k: int| 0 <= k < before.len() ==> now[k] == before[k]);
        assert forall|x: Seq<char>| now.contains(x) <==> items.contains(x) by {
            assert(before.contains(x) <==> front.contains(x));
            if items.contains(x) {
                let i = choose|i: int| 0 <= i < items.len() && items[i] == x;
                if i < front.len() {
                    assert(front[i] == x);
                    let k = choose|k: int| 0 <= k < before.len() && before[k] == x;
                    assert(now[k] == x);
                } else if before.contains(last) {
                    let k = choose|k: int| 0 <= k < before.len() && before[k] == x;
                    assert(now[k] == x);
                } else {
                    assert(now[before.len() as int] == x);
                }
            }
            if now.contains(x) {
                let k = choose|k: int| 0 <= k < now.len() && now[k] == x;
                if k < before.len() {
                    assert(before[k] == x);
                    let i = choose|i: int| 0 <= i < front.len() && front[i] == x;
                    assert(items[i] == x);
                } else {
                    assert(items[items.len() - 1] == x);
                }
            }
        }
    }
}

impl Clone for ConversionRecord {
    fn clone(&self) -> (copy: Self)
        ensures
            copy == *self,
    {
        ConversionRecord {
            original_path: self.original_path.clone(),
            output_path: self.output_path.clone(),
            original_format: self.original_format.clone(),
            metadata_preserved: self.metadata_preserved,
        }
    }
}

impl Clone for SkippedRecord {
    fn clone(&self) -> (copy: Self)
        ensures
            copy == *self,
    {
        SkippedRecord { path: self.path.clone(), reason: self.reason.clone() }
    }
}

/// The ending of every timestamp: the offset of UTC from itself.
pub open spec fn utc_ending() -> Seq<char> {
    "+00:00"@
}

/// The current time in UTC, written as RFC 3339. Calls chrono's `Utc::now`
/// and `DateTime::to_rfc3339`. The result depends on the clock; whatever the
/// clock says, the offset is written last, and for UTC it is `+00:00`.
/// `Utc::now` stops the program if the system clock stands before 1970.
#[verifier::external_body]
fn current_timestamp() -> (stamp: String)
    ensures
        ends_with(stamp@, utc_ending()),
{
    chrono::Utc::now().to_rfc3339()
}

/// Gathers the facts of one job for its report.
pub struct ReportBuilder {
    input_zip_name: String,
    conversions: Vec<ConversionRecord>,
    skipped: Vec<SkippedRecord>,
    files_scanned: usize,
    files_included: usize,
    files_converted: usize,
}

impl View for ReportBuilder {
    type V = Gathered;

    closed spec fn view(&self) -> Gathered {
        Gathered {
            input_zip: self.input_zip_name@,
            conversions: conversion_entries(self.conversions@),
            skipped: skipped_entries(self.skipped@),
            files_scanned: self.files_scanned as nat,
            files_included: self.files_included as nat,
            files_converted: self.files_converted as nat,
        }
    }
}

impl ReportBuilder {
    /// In every builder the counters fit the records: each conversion has one
    /// record, and a converted file is an included file.
    #[verifier::type_invariant]
    spec fn well_formed(self) -> bool {
        &&& self.files_converted == self.conversions@.len()
        &&& self.files_converted <= self.files_included
    }

    /// A builder without a name that has gathered nothing.
    fn blank() -> (builder: Self)
        ensures
            builder@ == nothing_gathered(Seq::empty()),
    {
        let builder = ReportBuilder {
            input_zip_name: String::new(),
            conversions: Vec::new(),
            skipped: Vec::new(),
            files_scanned: 0,
            files_included: 0,
            files_converted: 0,
        };
        proof {
            assert(builder@.conversions =~= Seq::<ConversionEntry>::empty());
            assert(builder@.skipped =~= Seq::<SkippedEntry>::empty());
        }
        builder
    }

    /// A builder for the archive at `input_zip_path` that has gathered
    /// nothing. The report names the archive by its file name.
    pub fn new(input_zip_path: &str) -> (builder: Self)
        ensures
            builder@ == nothing_gathered(archive_name(input_zip_path@)),
    {
        let name = file_name_of(normalize(input_zip_path).0.as_str());
        let input_zip_name = if name.as_str().unicode_len() == 0 {
            "unknown.zip".to_owned()
        } else {
            name
        };
        let builder = ReportBuilder {
            input_zip_name,
            conversions: Vec::new(),
            skipped: Vec::new(),
            files_scanned: 0,
            files_included: 0,
            files_converted: 0,
        };
        proof {
            assert(builder@.conversions =~= Seq::<ConversionEntry>::empty());
            assert(builder@.skipped =~= Seq::<SkippedEntry>::empty());
        }
        builder
    }

    /// Counts one more scanned entry.
    pub fn increment_scanned(&mut self)
        requires
            old(self)@.files_scanned < usize::MAX,
        ensures
            final(self)@ == record(old(self)@, ReportFact::Scanned),
    {
        proof {
            use_type_invariant(&*self);
        }
        self.files_scanned = self.files_scanned + 1;
    }

    /// Records that the entry `original_path` was converted from
    /// `original_format` and stands in the output as `output_path`.
    pub fn add_conversion(
        &mut self,
        original_path: String,
        output_path: String,
        original_format: String,
        metadata_preserved: bool,
    )
        requires
            old(self)@.files_included < usize::MAX,
        ensures
            final(self)@ == record(
                old(self)@,
                ReportFact::Converted(
                    ConversionEntry {
                        original_path: original_path@,
                        output_path: output_path@,
                        original_format: original_format@,
                        metadata_preserved,
                    },
                ),
            ),
    {
        proof {
            use_type_invariant(&*self);
        }
        let mut gathered = ReportBuilder::blank();
        std::mem::swap(self, &mut gathered);
        let ReportBuilder {
            input_zip_name,
            mut conversions,
            skipped,
            files_scanned,
            files_included,
            files_converted,
        } = gathered;
        conversions.push(
            ConversionRecord { original_path, output_path, original_format, metadata_preserved },
        );
        *self = ReportBuilder {
            input_zip_name,
            conversions,
            skipped,
            files_scanned,
            files_included: files_included + 1,
            files_converted: files_converted + 1,
        };
        proof {
            assert(self@.conversions =~= old(self)@.conversions.push(
                ConversionEntry {
                    original_path: original_path@,
                    output_path: output_path@,
                    original_format: original_format@,
                    metadata_preserved,
                },
            ));
        }
    }

    /// Records that the entry `original_path` was copied as it is and stands
    /// in the output as `output_path`. A copy is counted and has no record.
    pub fn add_copied(&mut self, original_path: String, output_path: String)
        requires
            old(self)@.files_included < usize::MAX,
        ensures
            final(self)@ == record(old(self)@, ReportFact::Copied),
    {
        proof {
            use_type_invariant(&*self);
        }
        self.files_included = self.files_included + 1;
    }

    /// Records that the entry `path` was left out for `reason`.
    pub fn add_skipped(&mut self, path: String, reason: String)
        ensures
            final(self)@ == record(
                old(self)@,
                ReportFact::Skipped(SkippedEntry { path: path@, reason: reason@ }),
            ),
    {
        proof {
            use_type_invariant(&*self);
        }
        let mut skipped: Vec<SkippedRecord> = Vec::new();
        std::mem::swap(&mut skipped, &mut self.skipped);
        skipped.push(SkippedRecord { path, reason });
        self.skipped = skipped;
        proof {
            assert(self@.skipped =~= old(self)@.skipped.push(
                SkippedEntry { path: path@, reason: reason@ },
            ));
        }
    }

    /// The report of what was gathered, stamped with the current time in
    /// UTC.
    pub fn build(self) -> (report: ProcessingReport)
        ensures
            report@ == report_of(self@, report.timestamp@),
            ends_with(report.timestamp@, utc_ending()),
    {
        let stamp = current_timestamp();
        self.build_at(stamp)
    }

    /// The report of what was gathered, stamped with `timestamp`.
    pub fn build_at(self, timestamp: String) -> (report: ProcessingReport)
        ensures
            report@ == report_of(self@, timestamp@),
    {
        proof {
            use_type_invariant(&self);
        }
        let ghost formats = formats_of(self@.conversions);
        // The set says which formats were seen, the list in which order.
        let mut formats_seen = StringHashSet::new();
        let mut seen: Vec<String> = Vec::new();
        let mut i: usize = 0;
        while i < self.conversions.len()
            invariant
                i <= self.conversions.len(),
                formats == formats_of(self@.conversions),
                formats.len() == self.conversions.len(),
                texts(seen@) == distinct(formats.take(i as int)),
                forall|x: Seq<char>| formats_seen@.contains(x) <==> texts(seen@).contains(x),
            decreases self.conversions.len() - i,
        {
            let format = &self.conversions[i].original_format;
            proof {
                let upto = formats.take(i + 1);
                assert(upto.drop_last() =~= formats.take(i as int));
                assert(upto.last() == format@);
            }
            if formats_seen.insert(format.clone()) {
                let ghost before = texts(seen@);
                seen.push(format.clone());
                proof {
                    let now = texts(seen@);
                    assert(now =~= before.push(format@));
                    assert forall|x: Seq<char>| formats_seen@.contains(x) <==> now.contains(
                        x,
                    ) by {
                        if before.contains(x) {
                            let k = choose|k: int| 0 <= k < before.len() && before[k] == x;
                            assert(now[k] == x);
                        }
                        if x == format@ {
                            assert(now[before.len() as int] == x);
                        }
                        if now.contains(x) {
                            let k = choose|k: int| 0 <= k < now.len() && now[k] == x;
                            if k < before.len() {
                                assert(before[k] == x);
                            }
                        }
                    }
                }
            }
            i = i + 1;
        }
        proof {
            assert(formats.take(i as int) =~= formats);
        }
        let mut notes: Vec<String> = Vec::new();
        let mut k: usize = 0;
        while k < seen.len()
            invariant
                k <= seen.len(),
                notes@.len() == k,
                forall|j: int| 0 <= j < k ==> notes@[j]@ == preservation_note(seen@[j]@),
            decreases seen.len() - k,
        {
            let note = MetadataHandler::get_preservation_note(seen[k].as_str());
            notes.push(note);
            k = k + 1;
        }
        if self.files_converted > 0 {
            notes.push("All converted images encoded as JPEG with quality 95".to_owned());
        }
        let stats = ReportStats {
            files_scanned: self.files_scanned,
            files_included: self.files_included,
            files_converted: self.files_converted,
            files_skipped: self.skipped.len(),
        };
        let report = ProcessingReport {
            app_version: "1.0.0".to_owned(),
            timestamp,
            input_zip: self.input_zip_name,
            stats,
            conversions: self.conversions,
            skipped: self.skipped,
            metadata_notes: notes,
        };
        proof {
            assert(report@.metadata_notes =~= metadata_notes(self@));
        }
        report
    }

    /// The name of the archive that the report is about.
    pub fn input_zip_name(&self) -> (name: &str)
        ensures
            name@ == self@.input_zip,
    {
        self.input_zip_name.as_str()
    }

    /// How many entries were scanned.
    pub fn files_scanned(&self) -> (n: usize)
        ensures
            n == self@.files_scanned,
    {
        self.files_scanned
    }

    /// How many entries were included, converted or copied.
    pub fn files_included(&self) -> (n: usize)
        ensures
            n == self@.files_included,
    {
        self.files_included
    }

    /// How many entries were converted.
    pub fn files_converted(&self) -> (n: usize)
        ensures
            n == self@.files_converted,
            n == self@.conversions.len(),
            n <= self@.files_included,
    {
        proof {
            use_type_invariant(self);
        }
        self.files_converted
    }

    /// How many entries were skipped.
    pub fn files_skipped(&self) -> (n: usize)
        ensures
            n == self@.skipped.len(),
    {
        self.skipped.len()
    }
}

impl Clone for ReportBuilder {
    /// A builder that has gathered the same facts.
    fn clone(&self) -> (copy: Self)
        ensures
            copy@ == self@,
    {
        proof {
            use_type_invariant(self);
        }
        let mut conversions: Vec<ConversionRecord> = Vec::new();
        let mut i: usize = 0;
        while i < self.conversions.len()
            invariant
                i <= self.conversions.len(),
                conversions@ == self.conversions@.take(i as int),
            decreases self.conversions.len() - i,
        {
            conversions.push(self.conversions[i].clone());
            i = i + 1;
        }
        let mut skipped: Vec<SkippedRecord> = Vec::new();
        let mut k: usize = 0;
        while k < self.skipped.len()
            invariant
                k <= self.skipped.len(),
                skipped@ == self.skipped@.take(k as int),
            decreases self.skipped.len() - k,
        {
            skipped.push(self.skipped[k].clone());
            k = k + 1;
        }
        proof {
            assert(conversions@ =~= self.conversions@);
            assert(skipped@ =~= self.skipped@);
        }
        ReportBuilder {
            input_zip_name: self.input_zip_name.clone(),
            conversions,
            skipped,
            files_scanned: self.files_scanned,
            files_included: self.files_included,
            files_converted: self.files_converted,
        }
    }
}

} // verus!
