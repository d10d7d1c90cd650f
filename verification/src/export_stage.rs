//! The export stage as the batch runner sees it: the runner owns the stage
//! progression, this adapter only exports items that have reached Export.

use vstd::prelude::*;
use crate::batch::{BatchItem, BatchStage};
use crate::batch_export::{BatchExportExecutor, BatchExportItem};
use crate::export_worker::{ExportRenderer, ExportWorkerError};

verus! {

pub enum ExportStageError {
    InvalidStage(BatchStage),
    Export(ExportWorkerError),
}

pub struct ExportStageExecutor<R> {
    executor: BatchExportExecutor<R>,
}

impl<R: ExportRenderer> ExportStageExecutor<R> {
    pub closed spec fn renderer_view(&self) -> R {
        self.executor.renderer_view()
    }

    pub fn new(executor: BatchExportExecutor<R>) -> (res: Self)
        ensures
            res.renderer_view() == executor.renderer_view(),
    {
        ExportStageExecutor { executor }
    }

    pub fn executor(&self) -> (res: &BatchExportExecutor<R>)
        ensures
            res.renderer_view() == self.renderer_view(),
    {
        &self.executor
    }

    /// The export request for an item: only an item at the Export stage is
    /// exported, under the nil batch id, as the item's own id and source.
    pub fn export_request(item: &BatchItem) -> (res: Result<BatchExportItem, ExportStageError>)
        ensures
            item.stage != BatchStage::Export ==> (res matches Err(ExportStageError::InvalidStage(s)) && s == item.stage),
            item.stage == BatchStage::Export ==> (res matches Ok(r) && r.batch_id == 0 && r.item_id == item.id
                && r.source@ == item.source_path@),
    {
        if item.stage != BatchStage::Export {
            return Err(ExportStageError::InvalidStage(item.stage));
        }
        Ok(BatchExportItem { batch_id: 0, item_id: item.id, source: item.source_path.clone() })
    }
}

} // verus!
