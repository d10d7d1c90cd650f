//! Dispatch of batch stages: Export goes to the export stage executor, the
//! other stages keep their existing executor until theirs are connected.

use vstd::prelude::*;
use crate::export_stage::ExportStageExecutor;

verus! {

pub struct BatchPipelineExecutor<R> {
    pub export: ExportStageExecutor<R>,
}

impl<R> BatchPipelineExecutor<R> {
    pub fn new(export: ExportStageExecutor<R>) -> (res: Self)
        ensures
            res.export == export,
    {
        BatchPipelineExecutor { export }
    }
}

} // verus!
