//! Which groups have had their exposure brackets merged. A group counts as
//! merged only for the bracket sets it was merged with.

use vstd::prelude::*;

verus! {

pub enum ExposureBracketMergeStoreError {
    Sqlite(String),
    Io(String),
}

/// The bracket merge records kept in the database at `path`.
pub struct ExposureBracketMergeStore {
    path: String,
}

impl ExposureBracketMergeStore {
    pub closed spec fn location(&self) -> Seq<char> {
        self.path@
    }

    /// The store kept at `path`; opening the database is the caller's part.
    pub fn at(path: String) -> (res: Self)
        ensures
            res.location() == path@,
    {
        ExposureBracketMergeStore { path }
    }

    pub fn path(&self) -> (res: &str)
        ensures
            res@ == self.location(),
    {
        self.path.as_str()
    }
}

impl Clone for ExposureBracketMergeStore {
    fn clone(&self) -> (res: Self)
        ensures
            res.location() == self.location(),
    {
        ExposureBracketMergeStore { path: self.path.clone() }
    }
}

} // verus!
