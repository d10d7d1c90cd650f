//! Classification records, and when portrait retouching may run for a batch
//! item: only for a photo known to be an eligible portrait.

use vstd::prelude::*;
use crate::batch::{BatchItem, BatchStage};
use crate::classification::{should_run_portrait_retouch, PhotoCategory};

verus! {

pub enum ClassificationStoreError {
    Sqlite(String),
    Io(String),
    Json(String),
}

/// The classifications kept in the database at `path`.
pub struct ClassificationStore {
    path: String,
}

impl ClassificationStore {
    pub closed spec fn location(&self) -> Seq<char> {
        self.path@
    }

    /// The store kept at `path`; opening the database is the caller's part.
    pub fn at(path: String) -> (res: Self)
        ensures
            res.location() == path@,
    {
        ClassificationStore { path }
    }

    pub fn path(&self) -> (res: &str)
        ensures
            res@ == self.location(),
    {
        self.path.as_str()
    }
}

impl Clone for ClassificationStore {
    fn clone(&self) -> (res: Self)
        ensures
            res.location() == self.location(),
    {
        ClassificationStore { path: self.path.clone() }
    }
}

/// A stage executor that lets portrait retouching run only on photos
/// classified as eligible portraits; every other decision is the inner
/// executor's.
pub struct ClassificationRoutingExecutor<E> {
    inner: E,
    classifications: ClassificationStore,
}

impl<E> ClassificationRoutingExecutor<E> {
    pub closed spec fn inner_view(&self) -> E {
        self.inner
    }

    pub closed spec fn store_location(&self) -> Seq<char> {
        self.classifications.location()
    }

    pub fn new(inner: E, classifications: ClassificationStore) -> (res: Self)
        ensures
            res.inner_view() == inner,
            res.store_location() == classifications.location(),
    {
        ClassificationRoutingExecutor { inner, classifications }
    }

    pub fn into_inner(self) -> (res: E)
        ensures
            res == self.inner_view(),
    {
        self.inner
    }

    pub fn inner(&self) -> (res: &E)
        ensures
            *res == self.inner_view(),
    {
        &self.inner
    }

    pub fn inner_mut(&mut self) -> (res: &mut E)
        ensures
            *res == old(self).inner_view(),
            final(self).inner_view() == *final(res),
            final(self).store_location() == old(self).store_location(),
    {
        &mut self.inner
    }

    pub fn classifications(&self) -> (res: &ClassificationStore)
        ensures
            res.location() == self.store_location(),
    {
        &self.classifications
    }

    /// The photo whose classification decides whether `item` runs: its asset
    /// when it is at the portrait retouch stage. `None` leaves the decision
    /// to the inner executor alone.
    pub fn gated_asset(item: &BatchItem) -> (res: Option<u128>)
        ensures
            res == (if item.stage == BatchStage::PortraitRetouch { item.asset_id } else { None::<u128> }),
    {
        if item.stage != BatchStage::PortraitRetouch {
            return None;
        }
        item.asset_id
    }

    /// Whether a gated item may go on to the inner executor, given its stored
    /// classification (category and retouch eligibility): not when it has
    /// none, else only an eligible portrait.
    pub fn retouch_allowed(stored: Option<(PhotoCategory, bool)>) -> (res: bool)
        ensures
            res == (stored matches Some((c, eligible)) && c == PhotoCategory::Portrait && eligible),
    {
        match stored {
            None => false,
            Some((category, eligible)) => should_run_portrait_retouch(category, eligible),
        }
    }
}

} // verus!
