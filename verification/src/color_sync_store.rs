//! Stored group color sync plans, one per group, by revision.

use vstd::prelude::*;

verus! {

pub enum ColorSyncStoreError {
    Sqlite(String),
    Io(String),
    Json(String),
}

/// The group color plans kept in the database at `path`.
pub struct ColorSyncStore {
    path: String,
}

impl ColorSyncStore {
    pub closed spec fn location(&self) -> Seq<char> {
        self.path@
    }

    /// The store kept at `path`; opening the database is the caller's part.
    pub fn at(path: String) -> (res: Self)
        ensures
            res.location() == path@,
    {
        ColorSyncStore { path }
    }

    pub fn path(&self) -> (res: &str)
        ensures
            res@ == self.location(),
    {
        self.path.as_str()
    }
}

impl Clone for ColorSyncStore {
    fn clone(&self) -> (res: Self)
        ensures
            res.location() == self.location(),
    {
        ColorSyncStore { path: self.path.clone() }
    }
}

} // verus!
