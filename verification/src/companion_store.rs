//! The companion snapshot a mobile project was hydrated from, one per batch.

use vstd::prelude::*;

verus! {

pub enum CompanionSnapshotStoreError {
    Sqlite(String),
    Io(String),
    Json(String),
    Uuid(String),
}

/// The companion snapshots kept in the database at `path`.
pub struct CompanionSnapshotStore {
    path: String,
}

impl CompanionSnapshotStore {
    pub closed spec fn location(&self) -> Seq<char> {
        self.path@
    }

    /// The store kept at `path`; opening the database is the caller's part.
    pub fn at(path: String) -> (res: Self)
        ensures
            res.location() == path@,
    {
        CompanionSnapshotStore { path }
    }

    pub fn path(&self) -> (res: &str)
        ensures
            res@ == self.location(),
    {
        self.path.as_str()
    }
}

impl Clone for CompanionSnapshotStore {
    fn clone(&self) -> (res: Self)
        ensures
            res.location() == self.location(),
    {
        CompanionSnapshotStore { path: self.path.clone() }
    }
}

} // verus!
