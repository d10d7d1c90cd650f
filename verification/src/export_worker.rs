//! Export execution: a renderer writes into a temporary file which is then
//! renamed onto the reserved output, so a crash never leaves a half-written
//! final output.

use vstd::prelude::*;
use crate::export_store::{partial_output, partial_output_path, ExportStatus};

verus! {

pub enum ExportWorkerError {
    Render(String),
    Store(String),
    Output(String),
}

/// Renders a source image into a destination file. Implemented by callers;
/// nothing is assumed of what an implementation does.
pub trait ExportRenderer {
    fn render(&self, source: &str, destination: &str) -> Result<(), ExportWorkerError>;
}

pub struct ExportJob {
    pub photo_id: String,
    pub source: String,
    pub output: String,
}

impl ExportJob {
    /// Where the renderer writes before the rename: the output with the
    /// extension `partial`.
    pub fn temporary_output(&self) -> (res: String)
        ensures
            res@ == partial_output(self.output@),
    {
        partial_output_path(self.output.as_str())
    }
}

/// Crash-safe export coordinator. It owns export execution only; analysis,
/// grouping, inference and color planning keep their own checkpoints.
pub struct ExportWorker<R> {
    renderer: R,
}

impl<R: ExportRenderer> ExportWorker<R> {
    pub closed spec fn renderer_view(&self) -> R {
        self.renderer
    }

    pub fn new(renderer: R) -> (res: Self)
        ensures
            res.renderer_view() == renderer,
    {
        ExportWorker { renderer }
    }

    pub fn renderer(&self) -> (res: &R)
        ensures
            *res == self.renderer_view(),
    {
        &self.renderer
    }
}

/// What a process restart makes of a stored status: a running export becomes
/// pending again, every other status stays.
pub open spec fn restarted_status(s: ExportStatus) -> ExportStatus {
    match s {
        ExportStatus::Running => ExportStatus::Pending,
        other => other,
    }
}

pub fn recover_interrupted_export(status: ExportStatus) -> (res: ExportStatus)
    ensures
        res == restarted_status(status),
{
    match status {
        ExportStatus::Running => ExportStatus::Pending,
        other => other,
    }
}

/// Recovering twice is recovering once, and nothing stays running.
pub proof fn restart_is_idempotent(s: ExportStatus)
    ensures
        restarted_status(restarted_status(s)) == restarted_status(s),
        restarted_status(s) != ExportStatus::Running,
{
}

} // verus!
