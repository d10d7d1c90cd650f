//! The background worker of a batch: the photographer sets an intent
//! (running, paused, cancelled), and the worker loop turns it into one action
//! at a time. At most one worker runs per batch. The loop itself, its waiting
//! and the batch runner live with the caller; every decision is made here.

use vstd::prelude::*;
use crate::batch::{Batch, JobStatus};

verus! {

#[derive(PartialEq, Eq, Structural, Clone, Copy, Debug)]
pub enum WorkerIntent {
    Running,
    Paused,
    Cancelled,
}

#[derive(PartialEq, Eq, Structural, Clone, Copy, Debug)]
pub struct BatchControlState {
    pub intent: WorkerIntent,
    pub worker_active: bool,
}

impl Default for BatchControlState {
    /// A batch that may run and has no worker yet.
    fn default() -> (res: Self)
        ensures
            res.intent == WorkerIntent::Running,
            !res.worker_active,
    {
        BatchControlState { intent: WorkerIntent::Running, worker_active: false }
    }
}

/// What the worker does next for an intent.
#[derive(PartialEq, Eq, Structural, Clone, Copy, Debug)]
pub enum WorkerAction {
    /// Cancel the batch and stop.
    CancelBatch,
    /// Pause the batch and wait until the intent changes.
    PauseBatch,
    /// Run the batch's next step.
    RunNextStep,
}

impl BatchControlState {
    /// Asks the batch to run. A new worker is to be started (`true`) only when
    /// none is active; from then on one is.
    pub fn start(&mut self) -> (spawn: bool)
        ensures
            final(self).intent == WorkerIntent::Running,
            final(self).worker_active,
            spawn == !old(self).worker_active,
    {
        self.intent = WorkerIntent::Running;
        if self.worker_active {
            false
        } else {
            self.worker_active = true;
            true
        }
    }

    /// Sets the photographer's intent; tells whether a worker is active to
    /// act on it.
    pub fn set_intent(&mut self, intent: WorkerIntent) -> (active: bool)
        ensures
            final(self).intent == intent,
            final(self).worker_active == old(self).worker_active,
            active == old(self).worker_active,
    {
        self.intent = intent;
        self.worker_active
    }

    /// The worker has stopped.
    pub fn finish(&mut self)
        ensures
            final(self).intent == old(self).intent,
            !final(self).worker_active,
    {
        self.worker_active = false;
    }
}

pub open spec fn action_for(intent: WorkerIntent) -> WorkerAction {
    match intent {
        WorkerIntent::Cancelled => WorkerAction::CancelBatch,
        WorkerIntent::Paused => WorkerAction::PauseBatch,
        WorkerIntent::Running => WorkerAction::RunNextStep,
    }
}

pub fn next_action(intent: WorkerIntent) -> (res: WorkerAction)
    ensures
        res == action_for(intent),
{
    match intent {
        WorkerIntent::Cancelled => WorkerAction::CancelBatch,
        WorkerIntent::Paused => WorkerAction::PauseBatch,
        WorkerIntent::Running => WorkerAction::RunNextStep,
    }
}

pub open spec fn any_with_status(b: Batch, status: JobStatus) -> bool {
    exists|i: int| 0 <= i < b.items@.len() && (#[trigger] b.items@[i]).status == status
}

fn has_status(b: &Batch, status: JobStatus) -> (res: bool)
    ensures
        res == any_with_status(*b, status),
{
    let mut i: usize = 0;
    while i < b.items.len()
        invariant
            i <= b.items@.len(),
            forall|k: int| 0 <= k < i ==> (#[trigger] b.items@[k]).status != status,
        decreases b.items@.len() - i,
    {
        if b.items[i].status == status {
            return true;
        }
        i += 1;
    }
    false
}

/// Before running a step, a batch with paused jobs is resumed.
pub fn needs_resume(batch: &Batch) -> (res: bool)
    ensures
        res == any_with_status(*batch, JobStatus::Paused),
{
    has_status(batch, JobStatus::Paused)
}

/// The worker goes on after a step: not once the runner had nothing left to
/// do, and not once a job failed in a batch that stops on errors.
pub open spec fn worker_continues(step_was_idle: bool, batch: Batch) -> bool {
    !step_was_idle && !(batch.stop_on_error && any_with_status(batch, JobStatus::Failed))
}

/// Whether the worker goes on after a step (see `worker_continues`).
pub fn continue_after_step(step_was_idle: bool, batch: &Batch) -> (res: bool)
    ensures
        res == worker_continues(step_was_idle, *batch),
{
    if step_was_idle {
        return false;
    }
    !(batch.stop_on_error && has_status(batch, JobStatus::Failed))
}

/// A failed photo does not stop the rest of the batch: in a batch that does
/// not stop on errors (as every batch the library makes), the worker goes on
/// after each step that did work, whatever the statuses of its jobs.
pub proof fn failed_photo_does_not_stop_batch(batch: Batch)
    requires
        !batch.stop_on_error,
    ensures
        worker_continues(false, batch),
{
}

/// Starting a batch twice starts one worker: the second start finds it
/// active.
pub proof fn one_worker_per_batch(s0: BatchControlState, s1: BatchControlState, first: bool, s2: BatchControlState, second: bool)
    requires
        s1.intent == WorkerIntent::Running && s1.worker_active && first == !s0.worker_active,
        s2.intent == WorkerIntent::Running && s2.worker_active && second == !s1.worker_active,
    ensures
        !second,
{
}

} // verus!
