//! The music library on disk: which lock files a scan ingests, under which
//! album id, and what refreshing one album folder asks of the query engine.
use vstd::prelude::*;
use crate::album::{path_strip_prefix, rel_path};
use crate::paths::{join_path, join_path_str};
use crate::text::str_eq;
use crate::watch::{file_name_of, path_file_name};

verus! {

/// The name of the lock file that marks an album folder.
pub open spec fn lock_name() -> Seq<char> {
    seq!['a', 'l', 'b', 'u', 'm', '.', 'l', 'o', 'c', 'k', '.', 'j', 's', 'o', 'n']
}

pub(crate) fn lock_name_str() -> (r: String)
    ensures
        r@ == lock_name(),
{
    proof {
        reveal_strlit("album.lock.json");
    }
    crate::text::str_to_string("album.lock.json")
}

/// What `update_album` reports: the album was read again, or it is gone.
pub enum UpdateResult {
    Updated(String),
    Removed(String),
}

/// What refreshing one album folder asks of the query engine: the ids to
/// remove, in order, then the id to ingest the lock file under, if any.
pub struct AlbumUpdate {
    pub removals: Vec<String>,
    pub ingest: Option<String>,
    pub result: UpdateResult,
}

/// A library rooted at a folder.
pub struct Library {
    pub root: String,
}

/// The album id of a folder: the folder relative to the root, or the folder
/// itself when it lies elsewhere.
pub open spec fn album_id(folder: Seq<char>, root: Seq<char>) -> Seq<char> {
    match path_strip_prefix(folder, root) {
        Some(p) => p,
        None => folder,
    }
}

/// A path without its final component (`Path::parent`), as text.
pub uninterp spec fn path_parent(p: Seq<char>) -> Option<Seq<char>>;

/// `Path::parent`, written back as text: the path without its final
/// component, `None` for a root or an empty path.  How components are read
/// is not written out here; the result is named `path_parent` of the path.
/// The parent is a part of the path's own text, so it is shorter.
#[verifier::external_body]
pub(crate) fn parent_of(p: &str) -> (r: Option<String>)
    ensures
        match r {
            Some(d) => path_parent(p@) == Some(d@) && d@.len() < p@.len(),
            None => path_parent(p@) is None,
        },
{
    std::path::Path::new(p).parent().map(|d| d.to_string_lossy().to_string())
}

/// The folder a lock file describes: its parent, or the path itself when it
/// has none.
pub open spec fn lock_dir(lock: Seq<char>) -> Seq<char> {
    match path_parent(lock) {
        Some(d) => d,
        None => lock,
    }
}

impl Library {
    pub fn new(root: String) -> (r: Library)
        ensures
            r.root@ == root@,
    {
        Library { root }
    }

    /// Whether a walked path is an album's lock file.
    pub fn is_lock_file(path: &str) -> (r: bool)
        ensures
            r == (path_file_name(path@) == Some(lock_name())),
    {
        match file_name_of(path) {
            Some(n) => str_eq(n.as_str(), lock_name_str().as_str()),
            None => false,
        }
    }

    /// The id a scan ingests a lock file under.  The id written in the lock
    /// is kept only where it equals the folder's place under the root, so
    /// the answer is always that place.
    pub fn scan_album_id(&self, lock_path: &str, lock_id: &str) -> (r: String)
        ensures
            r@ == album_id(lock_dir(lock_path@), self.root@),
    {
        let dir = match parent_of(lock_path) {
            Some(d) => d,
            None => crate::text::str_to_string(lock_path),
        };
        let expected = rel_path(dir.as_str(), self.root.as_str());
        if str_eq(lock_id, expected.as_str()) {
            crate::text::str_to_string(lock_id)
        } else {
            expected
        }
    }

    /// The lock file of an album folder.
    pub fn lock_path(folder: &str) -> (r: String)
        ensures
            r@ == join_path(folder@, lock_name()),
    {
        join_path_str(folder, lock_name_str().as_str())
    }

    /// What `update_album` does for a folder, given the id read from its
    /// lock file when that file exists and parses (`None` otherwise): with a
    /// lock, both the id it names and the folder's id are removed and the
    /// lock is ingested under the folder's id; without one, the folder's id
    /// is removed.
    pub fn update_album(&self, folder: &str, lock_id: Option<String>) -> (r: AlbumUpdate)
        ensures
            match lock_id {
                Some(p) => {
                    &&& r.removals@.len() == 2
                    &&& r.removals@[0]@ == p@
                    &&& r.removals@[1]@ == album_id(folder@, self.root@)
                    &&& r.ingest matches Some(i) && i@ == album_id(folder@, self.root@)
                    &&& r.result matches UpdateResult::Updated(u) && u@ == album_id(folder@, self.root@)
                },
                None => {
                    &&& r.removals@.len() == 1
                    &&& r.removals@[0]@ == album_id(folder@, self.root@)
                    &&& r.ingest is None
                    &&& r.result matches UpdateResult::Removed(u) && u@ == album_id(folder@, self.root@)
                },
            },
    {
        let id = rel_path(folder, self.root.as_str());
        match lock_id {
            Some(p) => {
                let mut removals: Vec<String> = Vec::new();
                removals.push(p);
                removals.push(id.clone());
                let ingest = Some(id.clone());
                AlbumUpdate { removals, ingest, result: UpdateResult::Updated(id) }
            },
            None => {
                let mut removals: Vec<String> = Vec::new();
                removals.push(id.clone());
                AlbumUpdate { removals, ingest: None, result: UpdateResult::Removed(id) }
            },
        }
    }
}

} // verus!
