//! Directory entries as a remote listing reports them, and the
//! classification a discovery worker applies to each one.

use vstd::prelude::*;
use crate::paths::{is_dot, join_seq, valid_name};
use crate::paths::{is_dot_name, join_path};

verus! {

/// The type tag of one directory entry.
#[derive(Clone, Copy, Debug)]
pub enum EntryKind {
    /// A regular file: its full path is reported.
    File,
    /// A directory: it is queued for expansion unless it is `.` or `..`.
    Directory,
    /// Anything else (symlink, device, ...): ignored.
    Other,
}

/// One item read from an open directory: a name and a type tag.
#[derive(Debug)]
pub struct Entry {
    pub name: String,
    pub kind: EntryKind,
}

/// What a discovery worker does with one entry.
#[derive(Debug)]
pub enum Action {
    /// Queue this full path as a new directory task.
    Expand(String),
    /// Report this full path as a discovered regular file.
    Report(String),
    /// Neither expand nor report.
    Ignore,
}

/// An entry that classification turns into a new directory task: a
/// directory whose name is well formed and not `.` or `..`.
pub open spec fn spec_expands(kind: EntryKind, name: Seq<char>) -> bool {
    &&& kind is Directory
    &&& valid_name(name)
    &&& !is_dot(name)
}

/// An entry that classification reports as a regular file: a file whose
/// name is well formed and not `.` or `..`.
pub open spec fn spec_reports(kind: EntryKind, name: Seq<char>) -> bool {
    &&& kind is File
    &&& valid_name(name)
    &&& !is_dot(name)
}

/// Classifies one entry read under directory `parent`: subdirectories other
/// than `.` and `..` become new tasks, regular files are reported with their
/// full path, and every other entry is ignored.
pub fn classify(parent: &String, entry: &Entry) -> (a: Action)
    requires
        valid_name(entry.name@),
    ensures
        match a {
            Action::Expand(s) => spec_expands(entry.kind, entry.name@) && s@ == join_seq(
                parent@,
                entry.name@,
            ),
            Action::Report(s) => spec_reports(entry.kind, entry.name@) && s@ == join_seq(
                parent@,
                entry.name@,
            ),
            Action::Ignore => !spec_expands(entry.kind, entry.name@) && !spec_reports(
                entry.kind,
                entry.name@,
            ),
        },
{
    match entry.kind {
        EntryKind::Directory => {
            if is_dot_name(&entry.name) {
                Action::Ignore
            } else {
                let p = join_path(parent, &entry.name);
                proof {
                    assert(p@ == join_seq(parent@, entry.name@));
                }
                Action::Expand(p)
            }
        },
        EntryKind::File => {
            if is_dot_name(&entry.name) {
                Action::Ignore
            } else {
                Action::Report(join_path(parent, &entry.name))
            }
        },
        EntryKind::Other => Action::Ignore,
    }
}

} // verus!
