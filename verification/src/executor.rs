//! Per-unit execution decisions: derived upload names and paths, the file
//! tasks of a unit, what to do with each remote answer, and the terminal
//! status of a feed unit.
//!
//! The remote calls themselves (existence check, upload, note creation) are
//! made by the surrounding application; every decision between two calls is
//! a function here, so it holds for every possible remote answer.

use vstd::prelude::*;
use vstd::string::*;
use crate::records::FileInfo;
use crate::records::ProcessableRecord;
use crate::records::opt_view;
use crate::strmap::StrMap;
use crate::strmap::strings_view;
use crate::strutil::after_last;
use crate::strutil::last_dot_index;
use crate::strutil::lower_chars;
use crate::strutil::ascii_lowercase;

verus! {

/// The deterministic upload name of a file: base name, an underscore, the
/// version id, and the extension lowercased.
pub open spec fn spec_safe_file_name(name: Seq<char>, vid: Seq<char>) -> Seq<char> {
    let al = after_last(name, '.');
    if al > 0 {
        name.subrange(0, al - 1) + "_"@ + vid + lower_chars(
            name.subrange(al - 1, name.len() as int),
        )
    } else {
        name + "_"@ + vid
    }
}

/// Derive the upload name of a file.
pub fn safe_file_name(name: &str, version_id: &str) -> (r: String)
    ensures
        r@ == spec_safe_file_name(name@, version_id@),
{
    let n = name.unicode_len();
    match last_dot_index(name) {
        Some(d) => {
            let base = name.substring_char(0, d);
            let ext = name.substring_char(d, n);
            let lowered = ascii_lowercase(ext);
            String::from_str(base).concat("_").concat(version_id).concat(lowered.as_str())
        },
        None => String::from_str(name).concat("_").concat(version_id),
    }
}

/// The remote folder path a file is looked up and stored under.
pub open spec fn spec_upload_path(name: Seq<char>, vid: Seq<char>) -> Seq<char> {
    "salesforce/"@ + spec_safe_file_name(name, vid)
}

/// Derive the remote path of a file.
pub fn upload_path(name: &str, version_id: &str) -> (r: String)
    ensures
        r@ == spec_upload_path(name@, version_id@),
{
    let safe = safe_file_name(name, version_id);
    String::from_str("salesforce/").concat(safe.as_str())
}

/// One file of a unit, ready for the idempotent upload protocol: check the
/// path first, upload the payload only when the file is absent.
pub struct FileTask {
    pub content_document_id: String,
    pub path: String,
    pub file_name: String,
    pub version_data: Option<String>,
}

impl FileTask {
    pub open spec fn view(&self) -> (Seq<char>, Seq<char>, Seq<char>, Option<Seq<char>>) {
        (self.content_document_id@, self.path@, self.file_name@, opt_view(self.version_data))
    }
}

/// The tasks a unit's content ids give rise to: one per id with a known
/// file row, in order; unknown ids are dropped.
pub open spec fn file_tasks_rec(
    ids: Seq<Seq<char>>,
    fim: Map<Seq<char>, (Seq<char>, Seq<char>, Option<Seq<char>>)>,
) -> Seq<(Seq<char>, Seq<char>, Seq<char>, Option<Seq<char>>)>
    decreases ids.len(),
{
    if ids.len() == 0 {
        Seq::empty()
    } else {
        let prev = file_tasks_rec(ids.drop_last(), fim);
        let cd = ids.last();
        if fim.contains_key(cd) {
            let fi = fim[cd];
            prev.push(
                (cd, spec_upload_path(fi.1, fi.0), spec_safe_file_name(fi.1, fi.0), fi.2),
            )
        } else {
            prev
        }
    }
}

/// Plan a unit's file work.
pub fn plan_unit_files(record: &ProcessableRecord, file_info: &StrMap<FileInfo>) -> (r: Vec<
    FileTask,
>)
    requires
        file_info.wf(),
    ensures
        r@.map(|i: int, t: FileTask| t.view()) == file_tasks_rec(
            strings_view(record.content_document_ids),
            file_info@.map_values(|f: FileInfo| f.view()),
        ),
{
    let ghost ids = strings_view(record.content_document_ids);
    let ghost fim = file_info@.map_values(|f: FileInfo| f.view());
    let n = record.content_document_ids.len();
    let mut out: Vec<FileTask> = Vec::new();
    let mut i: usize = 0;
    while i < n
        invariant
            0 <= i <= n,
            n == record.content_document_ids@.len(),
            file_info.wf(),
            ids == strings_view(record.content_document_ids),
            fim == file_info@.map_values(|f: FileInfo| f.view()),
            out@.map(|j: int, t: FileTask| t.view()) == file_tasks_rec(
                ids.take(i as int),
                fim,
            ),
        decreases n - i,
    {
        let ghost cd = ids[i as int];
        proof {
            assert(cd == record.content_document_ids@[i as int]@);
            assert(ids.take(i + 1).drop_last() =~= ids.take(i as int));
            assert(ids.take(i + 1).last() == cd);
        }
        match file_info.get(record.content_document_ids[i].as_str()) {
            Some(fi) => {
                let task = FileTask {
                    content_document_id: record.content_document_ids[i].clone(),
                    path: upload_path(fi.path_on_client.as_str(), fi.version_id.as_str()),
                    file_name: safe_file_name(
                        fi.path_on_client.as_str(),
                        fi.version_id.as_str(),
                    ),
                    version_data: match &fi.version_data {
                        Some(s) => Some(s.clone()),
                        None => None,
                    },
                };
                proof {
                    assert(fim.contains_key(cd));
                    assert(fim[cd] == fi.view());
                    assert(task.view() == (
                        cd,
                        spec_upload_path(fim[cd].1, fim[cd].0),
                        spec_safe_file_name(fim[cd].1, fim[cd].0),
                        fim[cd].2,
                    ));
                }
                out.push(task);
                proof {
                    assert(out@.map(|j: int, t: FileTask| t.view()) =~= file_tasks_rec(
                        ids.take(i + 1),
                        fim,
                    ));
                }
            },
            None => {
                proof {
                    assert(!fim.contains_key(cd));
                }
            },
        }
        i += 1;
    }
    proof {
        assert(ids.take(n as int) =~= ids);
    }
    out
}

/// What the remote work on one file task came to.
pub enum FileEvent {
    /// The file already existed; its id is attached.
    Reused(String),
    /// The payload was uploaded; the new id is attached.
    Uploaded(String),
    /// The file could not be resolved: the existence check or the upload
    /// failed, or no payload was at hand.  Only this file is dropped; the
    /// unit goes on with the rest.
    Failed,
}

/// How many events are uploads.
pub open spec fn count_uploaded(es: Seq<FileEvent>) -> int
    decreases es.len(),
{
    if es.len() == 0 {
        0
    } else {
        count_uploaded(es.drop_last()) + match es.last() {
            FileEvent::Uploaded(_) => 1int,
            _ => 0int,
        }
    }
}

/// The attachment ids the events yield, in order.
pub open spec fn collected_ids(es: Seq<FileEvent>) -> Seq<Seq<char>>
    decreases es.len(),
{
    if es.len() == 0 {
        Seq::empty()
    } else {
        let prev = collected_ids(es.drop_last());
        match es.last() {
            FileEvent::Reused(id) => prev.push(id@),
            FileEvent::Uploaded(id) => prev.push(id@),
            FileEvent::Failed => prev,
        }
    }
}

/// Account a unit's file events: how many files were freshly uploaded and
/// which attachment ids the note gets.  A note is owed exactly when at
/// least one id was collected.
pub fn unit_note_plan(events: &Vec<FileEvent>) -> (r: (usize, Vec<String>))
    ensures
        r.0 as int == count_uploaded(events@),
        strings_view(r.1) == collected_ids(events@),
{
    let n = events.len();
    let mut uploaded: usize = 0;
    let mut ids: Vec<String> = Vec::new();
    let mut i: usize = 0;
    while i < n
        invariant
            0 <= i <= n,
            n == events@.len(),
            uploaded as int == count_uploaded(events@.take(i as int)),
            uploaded <= i,
            strings_view(ids) == collected_ids(events@.take(i as int)),
        decreases n - i,
    {
        proof {
            assert(events@.take(i + 1).drop_last() =~= events@.take(i as int));
            assert(events@.take(i + 1).last() == events@[i as int]);
        }
        match &events[i] {
            FileEvent::Reused(id) => {
                ids.push(id.clone());
                proof {
                    assert(strings_view(ids) =~= collected_ids(events@.take(i + 1)));
                }
            },
            FileEvent::Uploaded(id) => {
                uploaded += 1;
                ids.push(id.clone());
                proof {
                    assert(strings_view(ids) =~= collected_ids(events@.take(i + 1)));
                }
            },
            FileEvent::Failed => {},
        }
        i += 1;
    }
    proof {
        assert(events@.take(n as int) =~= events@);
    }
    (uploaded, ids)
}

/// The terminal state of a feed unit.
pub enum NoteStatus {
    Success,
    Partial,
    Error,
}

/// Classify a feed unit from how many of its posts got a note: all of them
/// is a success, some a partial success, none an error.
pub fn chatter_note_status(notes_created: usize, total: usize) -> (r: NoteStatus)
    ensures
        notes_created == total ==> r is Success,
        notes_created != total && notes_created > 0 ==> r is Partial,
        notes_created != total && notes_created == 0 ==> r is Error,
{
    if notes_created == total {
        NoteStatus::Success
    } else if notes_created > 0 {
        NoteStatus::Partial
    } else {
        NoteStatus::Error
    }
}

/// The body of a plain file-attachment note.
pub fn attachment_note_body() -> (r: String)
    ensures
        r@ == "Attached files"@,
{
    String::from_str("Attached files")
}


/// The terminal state of a file unit: it succeeds exactly when its note
/// was created; a unit whose note failed, or that had nothing to attach,
/// is an error.
pub fn file_unit_status(note_created: bool) -> (r: NoteStatus)
    ensures
        note_created ==> r is Success,
        !note_created ==> r is Error,
{
    if note_created {
        NoteStatus::Success
    } else {
        NoteStatus::Error
    }
}

/// Attachment ids as the note property carries them: semicolon-joined.
pub open spec fn joined_ids_rec(ids: Seq<Seq<char>>) -> Seq<char>
    decreases ids.len(),
{
    if ids.len() == 0 {
        Seq::empty()
    } else if ids.len() == 1 {
        ids[0]
    } else {
        joined_ids_rec(ids.drop_last()) + ";"@ + ids.last()
    }
}

/// Join attachment ids for the note property.
pub fn join_attachment_ids(ids: &Vec<String>) -> (r: String)
    ensures
        r@ == joined_ids_rec(strings_view(*ids)),
{
    let ghost sv = strings_view(*ids);
    let n = ids.len();
    let mut out = String::new();
    let mut i: usize = 0;
    while i < n
        invariant
            0 <= i <= n,
            n == ids@.len(),
            sv == strings_view(*ids),
            out@ == joined_ids_rec(sv.take(i as int)),
        decreases n - i,
    {
        proof {
            assert(sv.take(i + 1).drop_last() =~= sv.take(i as int));
            assert(sv.take(i + 1).last() == sv[i as int]);
        }
        if i > 0 {
            out.append(";");
        }
        out.append(ids[i].as_str());
        proof {
            if i == 0 {
                assert(out@ =~= joined_ids_rec(sv.take(1)));
            } else {
                assert(out@ =~= joined_ids_rec(sv.take(i + 1)));
            }
        }
        i += 1;
    }
    proof {
        assert(sv.take(n as int) =~= sv);
    }
    out
}

} // verus!
