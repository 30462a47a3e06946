//! The result reporter: one audit row per terminal outcome, and a running
//! per-prefix summary.  Appending a skip batch adds exactly one `skipped`
//! row per unresolved parent and raises that prefix's skip count by their
//! number; outcome rows raise exactly one of the success or error counts.

use vstd::prelude::*;
use vstd::string::*;
use crate::csvtext;
use crate::csvtext::row_view;
use crate::executor::NoteStatus;
use crate::strmap::StrMap;
use crate::strutil::spec_dec;
use crate::strutil::usize_to_string;

verus! {

/// Per-prefix aggregate outcome of a run.
pub struct ObjectSummary {
    pub prefix: String,
    pub hubspot_object: String,
    pub success_count: usize,
    pub skipped_count: usize,
    pub error_count: usize,
    pub uploaded_files: usize,
}

impl ObjectSummary {
    /// Counts as mathematical integers, with the labels as text.
    pub open spec fn view(&self) -> (Seq<char>, Seq<char>, int, int, int, int) {
        (
            self.prefix@,
            self.hubspot_object@,
            self.success_count as int,
            self.skipped_count as int,
            self.error_count as int,
            self.uploaded_files as int,
        )
    }

    pub fn duplicate(&self) -> (r: Self)
        ensures
            r == *self,
    {
        ObjectSummary {
            prefix: self.prefix.clone(),
            hubspot_object: self.hubspot_object.clone(),
            success_count: self.success_count,
            skipped_count: self.skipped_count,
            error_count: self.error_count,
            uploaded_files: self.uploaded_files,
        }
    }
}

/// A destination object type as offered to the operator.
pub struct HubSpotObject {
    pub object_type_id: String,
    pub name: String,
    pub label: String,
}

/// A coarse progress event: phase, percentage, message.
pub struct ProgressInfo {
    pub step: String,
    pub progress: u8,
    pub message: String,
}

/// Per-prefix row counts of an analyzed export.
pub struct AnalyzeResponse {
    pub object_groups: StrMap<usize>,
}

/// What a finished run hands back: where the audit log was written and the
/// per-prefix summaries.
pub struct FileMappingResponse {
    pub result_csv_path: String,
    pub summaries: Vec<ObjectSummary>,
}

/// The audit-log header of a file-mapping run.
pub open spec fn spec_file_header() -> Seq<Seq<char>> {
    seq![
        "Salesforce ID"@,
        "HubSpot Object"@,
        "HubSpot Record ID"@,
        "HubSpot Record URL"@,
        "Files Count"@,
        "Files Uploaded"@,
        "Note Created"@,
        "Status"@,
        "Reason"@,
    ]
}

/// The audit-log header of a feed-migration run.
pub open spec fn spec_chatter_header() -> Seq<Seq<char>> {
    seq![
        "Salesforce Record ID"@,
        "HubSpot Object"@,
        "HubSpot Record ID"@,
        "HubSpot Record URL"@,
        "Feed Items Count"@,
        "Notes Created"@,
        "Status"@,
        "Reason"@,
    ]
}

/// The skip row of one unresolved parent in a file-mapping run.
pub open spec fn spec_file_skip_row(id: Seq<char>, object: Seq<char>) -> Seq<Seq<char>> {
    seq![id, object, ""@, ""@, "0"@, "0"@, "false"@, "skipped"@, "Record not found in HubSpot"@]
}

/// The skip row of one unresolved parent in a feed-migration run.
pub open spec fn spec_chatter_skip_row(id: Seq<char>, object: Seq<char>) -> Seq<Seq<char>> {
    seq![id, object, ""@, ""@, "0"@, "0"@, "skipped"@, "Record not found in HubSpot"@]
}

/// The audit log under construction and the running summaries.
pub struct MigrationRun {
    pub header: Vec<String>,
    pub rows: Vec<Vec<String>>,
    pub summaries: StrMap<ObjectSummary>,
}

/// The rows' first columns: one parent id per audit row.
pub open spec fn spec_row_ids(rows: Seq<Vec<String>>) -> Seq<Seq<char>> {
    rows.map(|i: int, r: Vec<String>| r@[0]@)
}

impl MigrationRun {
    pub open spec fn wf(&self) -> bool {
        self.summaries.wf()
    }

    /// Views of the data rows.
    pub open spec fn rows_v(&self) -> Seq<Seq<Seq<char>>> {
        csvtext::rows_view(self.rows)
    }

    /// Start an empty file-mapping audit log.
    pub fn new_file_mapping() -> (r: Self)
        ensures
            r.wf(),
            row_view(r.header) == spec_file_header(),
            r.rows@.len() == 0,
            r.summaries@ == Map::<Seq<char>, ObjectSummary>::empty(),
    {
        let mut header: Vec<String> = Vec::new();
        header.push(String::from_str("Salesforce ID"));
        header.push(String::from_str("HubSpot Object"));
        header.push(String::from_str("HubSpot Record ID"));
        header.push(String::from_str("HubSpot Record URL"));
        header.push(String::from_str("Files Count"));
        header.push(String::from_str("Files Uploaded"));
        header.push(String::from_str("Note Created"));
        header.push(String::from_str("Status"));
        header.push(String::from_str("Reason"));
        proof {
            assert(row_view(header) =~= spec_file_header());
        }
        MigrationRun { header, rows: Vec::new(), summaries: StrMap::new() }
    }

    /// Start an empty feed-migration audit log.
    pub fn new_chatter() -> (r: Self)
        ensures
            r.wf(),
            row_view(r.header) == spec_chatter_header(),
            r.rows@.len() == 0,
            r.summaries@ == Map::<Seq<char>, ObjectSummary>::empty(),
    {
        let mut header: Vec<String> = Vec::new();
        header.push(String::from_str("Salesforce Record ID"));
        header.push(String::from_str("HubSpot Object"));
        header.push(String::from_str("HubSpot Record ID"));
        header.push(String::from_str("HubSpot Record URL"));
        header.push(String::from_str("Feed Items Count"));
        header.push(String::from_str("Notes Created"));
        header.push(String::from_str("Status"));
        header.push(String::from_str("Reason"));
        proof {
            assert(row_view(header) =~= spec_chatter_header());
        }
        MigrationRun { header, rows: Vec::new(), summaries: StrMap::new() }
    }

    /// The summary of `prefix` after an update: the object label is fixed
    /// at first observation, the counts are raised by the given deltas.
    pub open spec fn summary_updated(
        old_map: Map<Seq<char>, ObjectSummary>,
        prefix: Seq<char>,
        object: Seq<char>,
        s: ObjectSummary,
        d_success: int,
        d_skipped: int,
        d_error: int,
        d_uploaded: int,
    ) -> bool {
        let old_v: (Seq<char>, Seq<char>, int, int, int, int) = if old_map.contains_key(
            prefix,
        ) {
            old_map[prefix].view()
        } else {
            (prefix, object, 0int, 0int, 0int, 0int)
        };
        s.view() == (
            prefix,
            old_v.1,
            old_v.2 + d_success,
            old_v.3 + d_skipped,
            old_v.4 + d_error,
            old_v.5 + d_uploaded,
        )
    }

    /// Fetch-or-create the summary of `prefix` and add the deltas.
    fn bump_summary(
        &mut self,
        prefix: &str,
        object: &str,
        d_success: usize,
        d_skipped: usize,
        d_error: usize,
        d_uploaded: usize,
    )
        requires
            old(self).wf(),
            (if old(self).summaries@.contains_key(prefix@) {
                old(self).summaries@[prefix@].view().2
            } else {
                0int
            }) + d_success <= usize::MAX,
            (if old(self).summaries@.contains_key(prefix@) {
                old(self).summaries@[prefix@].view().3
            } else {
                0int
            }) + d_skipped <= usize::MAX,
            (if old(self).summaries@.contains_key(prefix@) {
                old(self).summaries@[prefix@].view().4
            } else {
                0int
            }) + d_error <= usize::MAX,
            (if old(self).summaries@.contains_key(prefix@) {
                old(self).summaries@[prefix@].view().5
            } else {
                0int
            }) + d_uploaded <= usize::MAX,
        ensures
            final(self).wf(),
            final(self).header == old(self).header,
            final(self).rows == old(self).rows,
            final(self).summaries@.dom() == old(self).summaries@.dom().insert(prefix@),
            Self::summary_updated(
                old(self).summaries@,
                prefix@,
                object@,
                final(self).summaries@[prefix@],
                d_success as int,
                d_skipped as int,
                d_error as int,
                d_uploaded as int,
            ),
            forall|k: Seq<char>|
                k != prefix@ && old(self).summaries@.contains_key(k)
                    ==> final(self).summaries@.contains_key(k) && final(self).summaries@[k]
                    == old(self).summaries@[k],
            old(self).summaries@.contains_key(prefix@) ==> final(self).summaries.key_seq()
                == old(self).summaries.key_seq(),
            !old(self).summaries@.contains_key(prefix@) ==> final(self).summaries.key_seq()
                == old(self).summaries.key_seq().push(prefix@),
    {
        let updated: ObjectSummary = match self.summaries.get(prefix) {
            Some(s) => ObjectSummary {
                prefix: String::from_str(prefix),
                hubspot_object: s.hubspot_object.clone(),
                success_count: s.success_count + d_success,
                skipped_count: s.skipped_count + d_skipped,
                error_count: s.error_count + d_error,
                uploaded_files: s.uploaded_files + d_uploaded,
            },
            None => ObjectSummary {
                prefix: String::from_str(prefix),
                hubspot_object: String::from_str(object),
                success_count: d_success,
                skipped_count: d_skipped,
                error_count: d_error,
                uploaded_files: d_uploaded,
            },
        };
        self.summaries.insert(String::from_str(prefix), updated);
        proof {
            assert(self.summaries@.dom() =~= old(self).summaries@.dom().insert(prefix@));
        }
    }

    /// Append one `skipped` audit row per unresolved parent and raise the
    /// prefix's skip count by their number.
    pub fn record_file_skips(&mut self, prefix: &str, object: &str, missing: &Vec<String>)
        requires
            old(self).wf(),
            (if old(self).summaries@.contains_key(prefix@) {
                old(self).summaries@[prefix@].view().3
            } else {
                0int
            }) + missing@.len() <= usize::MAX,
        ensures
            final(self).wf(),
            final(self).header == old(self).header,
            final(self).rows@.len() == old(self).rows@.len() + missing@.len(),
            forall|i: int|
                0 <= i < old(self).rows@.len() ==> final(self).rows@[i] == old(self).rows@[i],
            forall|i: int|
                0 <= i < missing@.len() ==> row_view(
                    #[trigger] final(self).rows@[old(self).rows@.len() + i],
                ) == spec_file_skip_row(missing@[i]@, object@),
            final(self).summaries@.dom() == old(self).summaries@.dom().insert(prefix@),
            Self::summary_updated(
                old(self).summaries@,
                prefix@,
                object@,
                final(self).summaries@[prefix@],
                0,
                missing@.len() as int,
                0,
                0,
            ),
            forall|k: Seq<char>|
                k != prefix@ && old(self).summaries@.contains_key(k)
                    ==> final(self).summaries@.contains_key(k) && final(self).summaries@[k]
                    == old(self).summaries@[k],
    {
        let n = missing.len();
        let mut i: usize = 0;
        while i < n
            invariant
                0 <= i <= n,
                n == missing@.len(),
                self.wf(),
                self.header == old(self).header,
                self.summaries == old(self).summaries,
                self.rows@.len() == old(self).rows@.len() + i,
                forall|j: int|
                    0 <= j < old(self).rows@.len() ==> self.rows@[j] == old(self).rows@[j],
                forall|j: int|
                    0 <= j < i ==> row_view(
                        #[trigger] self.rows@[old(self).rows@.len() + j],
                    ) == spec_file_skip_row(missing@[j]@, object@),
            decreases n - i,
        {
            let mut row: Vec<String> = Vec::new();
            row.push(missing[i].clone());
            row.push(String::from_str(object));
            row.push(String::from_str(""));
            row.push(String::from_str(""));
            row.push(String::from_str("0"));
            row.push(String::from_str("0"));
            row.push(String::from_str("false"));
            row.push(String::from_str("skipped"));
            row.push(String::from_str("Record not found in HubSpot"));
            proof {
                assert(row_view(row) =~= spec_file_skip_row(missing@[i as int]@, object@));
            }
            self.rows.push(row);
            i += 1;
        }
        self.bump_summary(prefix, object, 0, n, 0, 0);
    }

    /// As `record_file_skips`, for the feed-migration log shape.
    pub fn record_chatter_skips(&mut self, prefix: &str, object: &str, missing: &Vec<String>)
        requires
            old(self).wf(),
            (if old(self).summaries@.contains_key(prefix@) {
                old(self).summaries@[prefix@].view().3
            } else {
                0int
            }) + missing@.len() <= usize::MAX,
        ensures
            final(self).wf(),
            final(self).header == old(self).header,
            final(self).rows@.len() == old(self).rows@.len() + missing@.len(),
            forall|i: int|
                0 <= i < old(self).rows@.len() ==> final(self).rows@[i] == old(self).rows@[i],
            forall|i: int|
                0 <= i < missing@.len() ==> row_view(
                    #[trigger] final(self).rows@[old(self).rows@.len() + i],
                ) == spec_chatter_skip_row(missing@[i]@, object@),
            final(self).summaries@.dom() == old(self).summaries@.dom().insert(prefix@),
            Self::summary_updated(
                old(self).summaries@,
                prefix@,
                object@,
                final(self).summaries@[prefix@],
                0,
                missing@.len() as int,
                0,
                0,
            ),
            forall|k: Seq<char>|
                k != prefix@ && old(self).summaries@.contains_key(k)
                    ==> final(self).summaries@.contains_key(k) && final(self).summaries@[k]
                    == old(self).summaries@[k],
    {
        let n = missing.len();
        let mut i: usize = 0;
        while i < n
            invariant
                0 <= i <= n,
                n == missing@.len(),
                self.wf(),
                self.header == old(self).header,
                self.summaries == old(self).summaries,
                self.rows@.len() == old(self).rows@.len() + i,
                forall|j: int|
                    0 <= j < old(self).rows@.len() ==> self.rows@[j] == old(self).rows@[j],
                forall|j: int|
                    0 <= j < i ==> row_view(
                        #[trigger] self.rows@[old(self).rows@.len() + j],
                    ) == spec_chatter_skip_row(missing@[j]@, object@),
            decreases n - i,
        {
            let mut row: Vec<String> = Vec::new();
            row.push(missing[i].clone());
            row.push(String::from_str(object));
            row.push(String::from_str(""));
            row.push(String::from_str(""));
            row.push(String::from_str("0"));
            row.push(String::from_str("0"));
            row.push(String::from_str("skipped"));
            row.push(String::from_str("Record not found in HubSpot"));
            proof {
                assert(row_view(row) =~= spec_chatter_skip_row(missing@[i as int]@, object@));
            }
            self.rows.push(row);
            i += 1;
        }
        self.bump_summary(prefix, object, 0, n, 0, 0);
    }

    /// The success row of a processed file unit.
    pub open spec fn spec_file_success_row(
        sf: Seq<char>,
        object: Seq<char>,
        hs: Seq<char>,
        url: Seq<char>,
        files_count: int,
        files_uploaded: int,
        note_created: bool,
    ) -> Seq<Seq<char>> {
        seq![
            sf,
            object,
            hs,
            url,
            spec_dec(files_count as nat),
            spec_dec(files_uploaded as nat),
            (if note_created {
                "true"@
            } else {
                "false"@
            }),
            "success"@,
            ""@,
        ]
    }

    /// Record a processed file unit.
    pub fn record_file_success(
        &mut self,
        prefix: &str,
        object: &str,
        sf_id: &str,
        hs_id: &str,
        url: &str,
        files_count: usize,
        files_uploaded: usize,
        note_created: bool,
    )
        requires
            old(self).wf(),
            (if old(self).summaries@.contains_key(prefix@) {
                old(self).summaries@[prefix@].view().2
            } else {
                0int
            }) + 1 <= usize::MAX,
            (if old(self).summaries@.contains_key(prefix@) {
                old(self).summaries@[prefix@].view().5
            } else {
                0int
            }) + files_uploaded <= usize::MAX,
        ensures
            final(self).wf(),
            final(self).header == old(self).header,
            final(self).rows@.len() == old(self).rows@.len() + 1,
            forall|i: int|
                0 <= i < old(self).rows@.len() ==> final(self).rows@[i] == old(self).rows@[i],
            row_view(final(self).rows@.last()) == Self::spec_file_success_row(
                sf_id@,
                object@,
                hs_id@,
                url@,
                files_count as int,
                files_uploaded as int,
                note_created,
            ),
            final(self).summaries@.dom() == old(self).summaries@.dom().insert(prefix@),
            Self::summary_updated(
                old(self).summaries@,
                prefix@,
                object@,
                final(self).summaries@[prefix@],
                1,
                0,
                0,
                files_uploaded as int,
            ),
            forall|k: Seq<char>|
                k != prefix@ && old(self).summaries@.contains_key(k)
                    ==> final(self).summaries@.contains_key(k) && final(self).summaries@[k]
                    == old(self).summaries@[k],
    {
        let mut row: Vec<String> = Vec::new();
        row.push(String::from_str(sf_id));
        row.push(String::from_str(object));
        row.push(String::from_str(hs_id));
        row.push(String::from_str(url));
        row.push(usize_to_string(files_count));
        row.push(usize_to_string(files_uploaded));
        row.push(
            if note_created {
                String::from_str("true")
            } else {
                String::from_str("false")
            },
        );
        row.push(String::from_str("success"));
        row.push(String::from_str(""));
        proof {
            assert(row_view(row) =~= Self::spec_file_success_row(
                sf_id@,
                object@,
                hs_id@,
                url@,
                files_count as int,
                files_uploaded as int,
                note_created,
            ));
        }
        self.rows.push(row);
        self.bump_summary(prefix, object, 1, 0, 0, files_uploaded);
    }

    /// The error row of a failed file unit.
    pub open spec fn spec_file_error_row(
        sf: Seq<char>,
        object: Seq<char>,
        hs: Seq<char>,
        url: Seq<char>,
        files_count: int,
        reason: Seq<char>,
    ) -> Seq<Seq<char>> {
        seq![
            sf,
            object,
            hs,
            url,
            spec_dec(files_count as nat),
            "0"@,
            "false"@,
            "error"@,
            reason,
        ]
    }

    /// Record a failed file unit.
    pub fn record_file_error(
        &mut self,
        prefix: &str,
        object: &str,
        sf_id: &str,
        hs_id: &str,
        url: &str,
        files_count: usize,
        reason: &str,
    )
        requires
            old(self).wf(),
            (if old(self).summaries@.contains_key(prefix@) {
                old(self).summaries@[prefix@].view().4
            } else {
                0int
            }) + 1 <= usize::MAX,
        ensures
            final(self).wf(),
            final(self).header == old(self).header,
            final(self).rows@.len() == old(self).rows@.len() + 1,
            forall|i: int|
                0 <= i < old(self).rows@.len() ==> final(self).rows@[i] == old(self).rows@[i],
            row_view(final(self).rows@.last()) == Self::spec_file_error_row(
                sf_id@,
                object@,
                hs_id@,
                url@,
                files_count as int,
                reason@,
            ),
            final(self).summaries@.dom() == old(self).summaries@.dom().insert(prefix@),
            Self::summary_updated(
                old(self).summaries@,
                prefix@,
                object@,
                final(self).summaries@[prefix@],
                0,
                0,
                1,
                0,
            ),
            forall|k: Seq<char>|
                k != prefix@ && old(self).summaries@.contains_key(k)
                    ==> final(self).summaries@.contains_key(k) && final(self).summaries@[k]
                    == old(self).summaries@[k],
    {
        let mut row: Vec<String> = Vec::new();
        row.push(String::from_str(sf_id));
        row.push(String::from_str(object));
        row.push(String::from_str(hs_id));
        row.push(String::from_str(url));
        row.push(usize_to_string(files_count));
        row.push(String::from_str("0"));
        row.push(String::from_str("false"));
        row.push(String::from_str("error"));
        row.push(String::from_str(reason));
        proof {
            assert(row_view(row) =~= Self::spec_file_error_row(
                sf_id@,
                object@,
                hs_id@,
                url@,
                files_count as int,
                reason@,
            ));
        }
        self.rows.push(row);
        self.bump_summary(prefix, object, 0, 0, 1, 0);
    }

    /// The status text of a feed unit's terminal state.
    pub open spec fn spec_status_text(status: NoteStatus) -> Seq<char> {
        match status {
            NoteStatus::Success => "success"@,
            NoteStatus::Partial => "partial"@,
            NoteStatus::Error => "error"@,
        }
    }

    /// The outcome row of a feed unit.
    pub open spec fn spec_chatter_row(
        sf: Seq<char>,
        object: Seq<char>,
        hs: Seq<char>,
        url: Seq<char>,
        feed_items: int,
        notes_created: int,
        status: NoteStatus,
    ) -> Seq<Seq<char>> {
        seq![
            sf,
            object,
            hs,
            url,
            spec_dec(feed_items as nat),
            spec_dec(notes_created as nat),
            Self::spec_status_text(status),
            ""@,
        ]
    }

    /// Record a feed unit's terminal state: a success or partial success
    /// counts as a processed unit with its notes, an error as a failed one.
    pub fn record_chatter_outcome(
        &mut self,
        prefix: &str,
        object: &str,
        sf_id: &str,
        hs_id: &str,
        url: &str,
        feed_items: usize,
        notes_created: usize,
        status: NoteStatus,
    )
        requires
            old(self).wf(),
            (if old(self).summaries@.contains_key(prefix@) {
                old(self).summaries@[prefix@].view().2
            } else {
                0int
            }) + 1 <= usize::MAX,
            (if old(self).summaries@.contains_key(prefix@) {
                old(self).summaries@[prefix@].view().4
            } else {
                0int
            }) + 1 <= usize::MAX,
            (if old(self).summaries@.contains_key(prefix@) {
                old(self).summaries@[prefix@].view().5
            } else {
                0int
            }) + notes_created <= usize::MAX,
        ensures
            final(self).wf(),
            final(self).header == old(self).header,
            final(self).rows@.len() == old(self).rows@.len() + 1,
            forall|i: int|
                0 <= i < old(self).rows@.len() ==> final(self).rows@[i] == old(self).rows@[i],
            row_view(final(self).rows@.last()) == Self::spec_chatter_row(
                sf_id@,
                object@,
                hs_id@,
                url@,
                feed_items as int,
                notes_created as int,
                status,
            ),
            final(self).summaries@.dom() == old(self).summaries@.dom().insert(prefix@),
            Self::summary_updated(
                old(self).summaries@,
                prefix@,
                object@,
                final(self).summaries@[prefix@],
                if status is Error {
                    0int
                } else {
                    1int
                },
                0,
                if status is Error {
                    1int
                } else {
                    0int
                },
                if status is Error {
                    0int
                } else {
                    notes_created as int
                },
            ),
            forall|k: Seq<char>|
                k != prefix@ && old(self).summaries@.contains_key(k)
                    ==> final(self).summaries@.contains_key(k) && final(self).summaries@[k]
                    == old(self).summaries@[k],
    {
        let mut row: Vec<String> = Vec::new();
        row.push(String::from_str(sf_id));
        row.push(String::from_str(object));
        row.push(String::from_str(hs_id));
        row.push(String::from_str(url));
        row.push(usize_to_string(feed_items));
        row.push(usize_to_string(notes_created));
        let is_error = match status {
            NoteStatus::Success => {
                row.push(String::from_str("success"));
                false
            },
            NoteStatus::Partial => {
                row.push(String::from_str("partial"));
                false
            },
            NoteStatus::Error => {
                row.push(String::from_str("error"));
                true
            },
        };
        row.push(String::from_str(""));
        proof {
            assert(row_view(row) =~= Self::spec_chatter_row(
                sf_id@,
                object@,
                hs_id@,
                url@,
                feed_items as int,
                notes_created as int,
                status,
            ));
        }
        self.rows.push(row);
        if is_error {
            self.bump_summary(prefix, object, 0, 0, 1, 0);
        } else {
            self.bump_summary(prefix, object, 1, 0, 0, notes_created);
        }
    }

    /// Print the audit log: the header row, then every data row, each with
    /// a trailing line feed; and hand out the summaries in first-seen order.
    pub fn finish(&self) -> (r: (String, Vec<ObjectSummary>))
        requires
            self.wf(),
        ensures
            r.0@ == csvtext::encoded_rows(seq![row_view(self.header)] + self.rows_v()),
            r.1@.len() == self.summaries.key_seq().len(),
            forall|i: int|
                0 <= i < r.1@.len() ==> #[trigger] r.1@[i] == self.summaries@[self.summaries.key_seq()[i]],
    {
        let ghost all = seq![row_view(self.header)] + self.rows_v();
        let mut text = String::new();
        let hline = csvtext::encode_row(&self.header);
        text.append(hline.as_str());
        text.append("\n");
        proof {
            reveal_strlit("\n");
            assert("\n"@ =~= seq!['\n']);
            assert(all.len() == 1 + self.rows@.len());
            assert(all.take(1).len() == 1);
            assert(all.take(1).drop_last() =~= Seq::<Seq<Seq<char>>>::empty());
            assert(all.take(1).last() == row_view(self.header));
            assert(text@ =~= Seq::<char>::empty() + hline@ + "\n"@);
            assert(csvtext::encoded_rows(all.take(1).drop_last()) =~= Seq::<char>::empty());
            assert(csvtext::encoded_row(all.take(1).last()) == hline@);
            assert(csvtext::encoded_rows(all.take(1)) =~= Seq::<char>::empty() + hline@
                + "\n"@);
            assert(text@ =~= csvtext::encoded_rows(all.take(1)));
        }
        let n = self.rows.len();
        let mut i: usize = 0;
        while i < n
            invariant
                0 <= i <= n,
                n == self.rows@.len(),
                all == seq![row_view(self.header)] + self.rows_v(),
                all.len() == n + 1,
                text@ == csvtext::encoded_rows(all.take(i + 1)),
            decreases n - i,
        {
            let line = csvtext::encode_row(&self.rows[i]);
            text.append(line.as_str());
            text.append("\n");
            proof {
                reveal_strlit("\n");
                assert("\n"@ =~= seq!['\n']);
                assert(all.len() == 1 + self.rows@.len());
                assert(all.take(i + 2).len() == i + 2);
                assert(all.take(i + 2).drop_last() =~= all.take(i + 1));
                assert(all.take(i + 2).last() == self.rows_v()[i as int]);
                assert(self.rows_v()[i as int] == row_view(self.rows@[i as int]));
                assert(text@ =~= csvtext::encoded_rows(all.take(i + 2)));
            }
            i += 1;
        }
        proof {
            assert(all.take(n + 1) =~= all);
        }
        let m = self.summaries.len();
        let mut sums: Vec<ObjectSummary> = Vec::new();
        let mut j: usize = 0;
        while j < m
            invariant
                0 <= j <= m,
                m == self.summaries.entry_seq().len(),
                self.wf(),
                sums@.len() == j,
                forall|k: int|
                    0 <= k < j ==> #[trigger] sums@[k] == self.summaries@[self.summaries.key_seq()[k]],
            decreases m - j,
        {
            let s = self.summaries.value_at(j);
            sums.push(s.duplicate());
            j += 1;
        }
        (text, sums)
    }
}

} // verus!

verus! {

/// Every routed parent appears in exactly one audit row.  A run writes the
/// skip rows of the unresolved parents and then exactly one outcome row per
/// resolved parent; over distinct parent ids the resulting first columns
/// hold each routed parent once and nothing else.
pub proof fn lemma_audit_rows_complete(
    ids: Seq<Seq<char>>,
    found: Set<Seq<char>>,
    row_ids: Seq<Seq<char>>,
)
    requires
        forall|i: int, j: int| 0 <= i < j < ids.len() ==> ids[i] != ids[j],
        row_ids == crate::resolver::missing_rec(ids, found) + crate::resolver::kept_rec(
            ids,
            found,
        ),
    ensures
        forall|p: Seq<char>| #[trigger] row_ids.contains(p) <==> ids.contains(p),
        forall|i: int, j: int| 0 <= i < j < row_ids.len() ==> row_ids[i] != row_ids[j],
{
    crate::resolver::lemma_parent_partition(ids, found);
    let m = crate::resolver::missing_rec(ids, found);
    let k = crate::resolver::kept_rec(ids, found);
    assert forall|p: Seq<char>| #[trigger] row_ids.contains(p) <==> ids.contains(p) by {
        if row_ids.contains(p) {
            let i = choose|i: int| 0 <= i < row_ids.len() && row_ids[i] == p;
            if i < m.len() {
                assert(m[i] == p);
                assert(m.contains(p));
            } else {
                assert(k[i - m.len()] == p);
                assert(k.contains(p));
            }
        }
        if ids.contains(p) {
            if found.contains(p) {
                assert(k.contains(p));
                let i = choose|i: int| 0 <= i < k.len() && k[i] == p;
                assert(row_ids[m.len() + i] == p);
            } else {
                assert(m.contains(p));
                let i = choose|i: int| 0 <= i < m.len() && m[i] == p;
                assert(row_ids[i] == p);
            }
        }
    }
    assert forall|i: int, j: int| 0 <= i < j < row_ids.len() implies row_ids[i] != row_ids[j] by {
        if i < m.len() && j < m.len() {
            assert(row_ids[i] == m[i] && row_ids[j] == m[j]);
        } else if i < m.len() && j >= m.len() {
            assert(row_ids[i] == m[i] && row_ids[j] == k[j - m.len()]);
            assert(m.contains(m[i]));
            assert(k.contains(k[j - m.len()]));
        } else {
            assert(row_ids[i] == k[i - m.len()] && row_ids[j] == k[j - m.len()]);
        }
    }
}

} // verus!
