//! A model of the remote volume as the traversal sees it: for each
//! directory whose open succeeds, the listing that reading it yields.  A
//! directory that is reachable but absent from the model is one whose open
//! fails; the engine contains such a failure to that subtree.

use vstd::prelude::*;
use crate::entries::{Entry, EntryKind};
use crate::paths::{is_dot, valid_dir_path, valid_name};

verus! {

/// One openable directory: its full path and the entries read from it.
pub struct Listing {
    pub path: String,
    pub entries: Vec<Entry>,
}

/// The set of directories the remote volume will open, each with its
/// listing.  Opening any path not present fails.
pub struct Volume {
    pub dirs: Vec<Listing>,
}

impl Volume {
    /// Entry `j` of directory `i` exists and classification would expand it:
    /// a subdirectory other than `.` and `..`.
    pub open spec fn dir_child(self, i: int, j: int) -> bool {
        &&& 0 <= i < self.dirs@.len()
        &&& 0 <= j < self.dirs@[i].entries@.len()
        &&& self.dirs@[i].entries@[j].kind is Directory
        &&& valid_name(self.dirs@[i].entries@[j].name@)
        &&& !is_dot(self.dirs@[i].entries@[j].name@)
    }

    /// Entry `j` of directory `i` exists and classification would report it:
    /// a regular file other than `.` and `..`.
    pub open spec fn file_child(self, i: int, j: int) -> bool {
        &&& 0 <= i < self.dirs@.len()
        &&& 0 <= j < self.dirs@[i].entries@.len()
        &&& self.dirs@[i].entries@[j].kind is File
        &&& valid_name(self.dirs@[i].entries@[j].name@)
        &&& !is_dot(self.dirs@[i].entries@[j].name@)
    }

    /// The volume will open path `p`.
    pub open spec fn opens(self, p: Seq<char>) -> bool {
        exists|i: int| 0 <= i < self.dirs@.len() && self.dirs@[i].path@ == p
    }

    /// A well-formed model: directory paths are valid and listed once each,
    /// and within one listing the entry names are valid and distinct, as the
    /// names read from one real directory are.
    pub open spec fn wf(self) -> bool {
        &&& forall|i: int| 0 <= i < self.dirs@.len() ==> valid_dir_path(#[trigger] self.dirs@[i].path@)
        &&& forall|i1: int, i2: int|
            0 <= i1 < i2 < self.dirs@.len() ==> self.dirs@[i1].path@ != self.dirs@[i2].path@
        &&& forall|i: int, j: int|
            0 <= i < self.dirs@.len() && 0 <= j < self.dirs@[i].entries@.len() ==> valid_name(
                #[trigger] self.dirs@[i].entries@[j].name@,
            )
        &&& forall|i: int, j1: int, j2: int|
            0 <= i < self.dirs@.len() && 0 <= j1 < j2 < self.dirs@[i].entries@.len()
                ==> (#[trigger] self.dirs@[i].entries@[j1].name@) != (#[trigger] self.dirs@[i].entries@[j2].name@)
    }

    /// Opens directory `p`: returns the index of its listing, or `None` when
    /// the volume does not open `p`.
    pub fn open_dir(&self, p: &String) -> (r: Option<usize>)
        ensures
            match r {
                Some(i) => 0 <= i < self.dirs@.len() && self.dirs@[i as int].path@ == p@,
                None => !self.opens(p@),
            },
    {
        let n = self.dirs.len();
        let mut i: usize = 0;
        while i < n
            invariant
                0 <= i <= n,
                n == self.dirs@.len(),
                forall|k: int| 0 <= k < i ==> self.dirs@[k].path@ != p@,
            decreases n - i,
        {
            if self.dirs[i].path == *p {
                return Some(i);
            }
            i = i + 1;
        }
        None
    }
}

} // verus!
