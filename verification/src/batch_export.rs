//! Batch export: the export stage of a batch, tied to the persistent export
//! checkpoints. It never touches upstream import, analysis, grouping, preset,
//! retouch or QA state.

use vstd::prelude::*;
use crate::export_store::{ExportStore, ExportStoreError};
use crate::export_worker::{ExportRenderer, ExportWorker, ExportWorkerError};

verus! {

pub struct BatchExportItem {
    pub batch_id: u128,
    pub item_id: u128,
    pub source: String,
}

pub enum BatchExportError {
    Store(ExportStoreError),
    Worker(ExportWorkerError),
}

pub struct BatchExportExecutor<R> {
    worker: ExportWorker<R>,
    store: ExportStore,
}

impl<R: ExportRenderer> BatchExportExecutor<R> {
    pub closed spec fn renderer_view(&self) -> R {
        self.worker.renderer_view()
    }

    pub closed spec fn store_location(&self) -> Seq<char> {
        self.store.location()
    }

    pub fn new(renderer: R, store: ExportStore) -> (res: Self)
        ensures
            res.renderer_view() == renderer,
            res.store_location() == store.location(),
    {
        BatchExportExecutor { worker: ExportWorker::new(renderer), store }
    }

    pub fn worker(&self) -> (res: &ExportWorker<R>)
        ensures
            res.renderer_view() == self.renderer_view(),
    {
        &self.worker
    }

    pub fn store(&self) -> (res: &ExportStore)
        ensures
            res.location() == self.store_location(),
    {
        &self.store
    }
}

} // verus!
