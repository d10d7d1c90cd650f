//! Per-photo resumable batch jobs: stage progression and job status.

use vstd::prelude::*;
use crate::ids::fresh_id;

verus! {

#[derive(PartialEq, Eq, Structural, Clone, Copy, Debug)]
pub enum BatchStage {
    Import,
    Analyze,
    ApplyPreset,
    PortraitRetouch,
    Qa,
    Export,
    Done,
}

/// The stage that follows `s`. New RAW imports only prepare sources and run
/// reusable analysis (Import, Analyze, Done); the older automatic chain
/// (ApplyPreset .. Export) stays loadable for existing projects.
pub open spec fn next_stage(s: BatchStage) -> BatchStage {
    match s {
        BatchStage::Import => BatchStage::Analyze,
        BatchStage::Analyze => BatchStage::Done,
        BatchStage::ApplyPreset => BatchStage::PortraitRetouch,
        BatchStage::PortraitRetouch => BatchStage::Qa,
        BatchStage::Qa => BatchStage::Export,
        BatchStage::Export => BatchStage::Done,
        BatchStage::Done => BatchStage::Done,
    }
}

/// How many completed stages separate `s` from Done.
pub open spec fn stages_left(s: BatchStage) -> nat {
    match s {
        BatchStage::Import => 2,
        BatchStage::Analyze => 1,
        BatchStage::ApplyPreset => 4,
        BatchStage::PortraitRetouch => 3,
        BatchStage::Qa => 2,
        BatchStage::Export => 1,
        BatchStage::Done => 0,
    }
}

impl BatchStage {
    pub fn next(self) -> (res: Self)
        ensures
            res == next_stage(self),
    {
        match self {
            BatchStage::Import => BatchStage::Analyze,
            BatchStage::Analyze => BatchStage::Done,
            BatchStage::ApplyPreset => BatchStage::PortraitRetouch,
            BatchStage::PortraitRetouch => BatchStage::Qa,
            BatchStage::Qa => BatchStage::Export,
            BatchStage::Export | BatchStage::Done => BatchStage::Done,
        }
    }
}

/// Law: every stage reaches Done; each completion moves one stage closer
/// until Done, which stays Done.
pub proof fn stages_reach_done(s: BatchStage)
    ensures
        s != BatchStage::Done ==> stages_left(next_stage(s)) + 1 == stages_left(s),
        s == BatchStage::Done <==> stages_left(s) == 0,
        next_stage(BatchStage::Done) == BatchStage::Done,
        stages_left(s) <= 4,
{
}

#[derive(PartialEq, Eq, Structural, Clone, Copy, Debug)]
pub enum JobStatus {
    Pending,
    Running,
    Paused,
    Failed,
    Cancelled,
    Done,
}

/// One photo's job in a batch.
pub struct BatchItem {
    pub id: u128,
    pub asset_id: Option<u128>,
    pub source_path: String,
    pub stage: BatchStage,
    pub status: JobStatus,
    pub attempts: u32,
    pub last_error: Option<String>,
}

impl Clone for BatchItem {
    fn clone(&self) -> (res: Self)
        ensures
            res == *self,
    {
        BatchItem {
            id: self.id,
            asset_id: self.asset_id,
            source_path: self.source_path.clone(),
            stage: self.stage,
            status: self.status,
            attempts: self.attempts,
            last_error: match &self.last_error {
                Some(e) => Some(e.clone()),
                None => None,
            },
        }
    }
}

/// A fresh job at `stage`, not yet attempted.
pub open spec fn fresh_item(item: BatchItem, asset_id: Option<u128>, source_path: Seq<char>, stage: BatchStage) -> bool {
    &&& item.asset_id == asset_id
    &&& item.source_path@ == source_path
    &&& item.stage == stage
    &&& item.status == JobStatus::Pending
    &&& item.attempts == 0
    &&& item.last_error is None
}

/// The job after `start`.
pub open spec fn started(i: BatchItem) -> BatchItem {
    if i.status == JobStatus::Cancelled || i.status == JobStatus::Done {
        i
    } else {
        BatchItem { status: JobStatus::Running, ..i }
    }
}

/// The job after `complete_stage`.
pub open spec fn completed(i: BatchItem) -> BatchItem {
    BatchItem {
        stage: next_stage(i.stage),
        last_error: None,
        status: if next_stage(i.stage) == BatchStage::Done { JobStatus::Done } else { JobStatus::Pending },
        ..i
    }
}

/// The job after `fail(error)`.
pub open spec fn failed(i: BatchItem, error: String) -> BatchItem {
    BatchItem { attempts: (i.attempts + 1) as u32, last_error: Some(error), status: JobStatus::Failed, ..i }
}

/// The job after `retry`.
pub open spec fn retried(i: BatchItem) -> BatchItem {
    if i.status == JobStatus::Failed {
        BatchItem { last_error: None, status: JobStatus::Pending, ..i }
    } else {
        i
    }
}

impl BatchItem {
    /// A job that starts at Import.
    pub fn new(source_path: String) -> (res: Self)
        ensures
            fresh_item(res, None, source_path@, BatchStage::Import),
    {
        BatchItem {
            id: fresh_id(),
            asset_id: None,
            source_path,
            stage: BatchStage::Import,
            status: JobStatus::Pending,
            attempts: 0,
            last_error: None,
        }
    }

    /// A job whose RAW ingest is already complete: it starts at Analyze.
    pub fn imported(source_path: String) -> (res: Self)
        ensures
            fresh_item(res, None, source_path@, BatchStage::Analyze),
    {
        BatchItem {
            id: fresh_id(),
            asset_id: None,
            source_path,
            stage: BatchStage::Analyze,
            status: JobStatus::Pending,
            attempts: 0,
            last_error: None,
        }
    }

    /// An imported job that keeps its catalog asset identity.
    pub fn imported_asset(asset_id: u128, source_path: String) -> (res: Self)
        ensures
            fresh_item(res, Some(asset_id), source_path@, BatchStage::Analyze),
    {
        BatchItem {
            id: fresh_id(),
            asset_id: Some(asset_id),
            source_path,
            stage: BatchStage::Analyze,
            status: JobStatus::Pending,
            attempts: 0,
            last_error: None,
        }
    }

    /// Marks the job running, unless it is cancelled or done.
    pub fn start(&mut self)
        ensures
            *final(self) == started(*old(self)),
    {
        if !(self.status == JobStatus::Cancelled || self.status == JobStatus::Done) {
            self.status = JobStatus::Running;
        }
    }

    /// Moves the job to its next stage; it is done when that stage is Done,
    /// otherwise pending again.
    pub fn complete_stage(&mut self)
        ensures
            *final(self) == completed(*old(self)),
    {
        self.stage = self.stage.next();
        self.last_error = None;
        self.status = if self.stage == BatchStage::Done { JobStatus::Done } else { JobStatus::Pending };
    }

    /// Records a failure; the stage is kept so the job can resume there.
    pub fn fail(&mut self, error: String)
        requires
            old(self).attempts < u32::MAX,
        ensures
            *final(self) == failed(*old(self), error),
    {
        self.attempts = self.attempts + 1;
        self.last_error = Some(error);
        self.status = JobStatus::Failed;
    }

    /// Makes a failed job pending again; any other job is left as it is.
    pub fn retry(&mut self)
        ensures
            *final(self) == retried(*old(self)),
    {
        if self.status == JobStatus::Failed {
            self.last_error = None;
            self.status = JobStatus::Pending;
        }
    }
}

/// Law: a failed job resumes where it failed. Failing and then retrying leaves
/// the job pending at the same stage, with no error and one more attempt
/// counted; nothing else changes.
pub proof fn retry_resumes_failed_stage(i: BatchItem, error: String)
    requires
        i.attempts < u32::MAX,
    ensures
        retried(failed(i, error)) == (BatchItem {
            status: JobStatus::Pending,
            attempts: (i.attempts + 1) as u32,
            last_error: None,
            ..i
        }),
        retried(failed(i, error)).stage == i.stage,
{
}

/// Law: retrying a job that has not failed changes nothing, and starting is
/// idempotent.
pub proof fn retry_and_start_are_stable(i: BatchItem)
    ensures
        i.status != JobStatus::Failed ==> retried(i) == i,
        started(started(i)) == started(i),
{
}

/// Law: completing stages brings every job to Done, with status Done, after
/// exactly `stages_left` completions.
pub proof fn completion_reaches_done(i: BatchItem)
    ensures
        i.stage != BatchStage::Done ==> stages_left(completed(i).stage) + 1 == stages_left(i.stage),
        completed(i).status == JobStatus::Done <==> completed(i).stage == BatchStage::Done,
{
}

/// A named batch of jobs.
pub struct Batch {
    pub id: u128,
    pub name: String,
    pub items: Vec<BatchItem>,
    pub auto_qa: bool,
    pub stop_on_error: bool,
}

pub open spec fn batch_defaults(b: Batch, name: Seq<char>) -> bool {
    b.name@ == name && b.auto_qa && !b.stop_on_error
}

impl Batch {
    /// A batch whose jobs start at Import, one per path, in order.
    pub fn new(name: String, paths: Vec<String>) -> (res: Self)
        ensures
            batch_defaults(res, name@),
            res.items@.len() == paths@.len(),
            forall|i: int| 0 <= i < paths@.len()
                ==> fresh_item(#[trigger] res.items@[i], None, paths@[i]@, BatchStage::Import),
    {
        let mut items: Vec<BatchItem> = Vec::new();
        let mut i: usize = 0;
        while i < paths.len()
            invariant
                i <= paths@.len(),
                items@.len() == i,
                forall|j: int| 0 <= j < i
                    ==> fresh_item(#[trigger] items@[j], None, paths@[j]@, BatchStage::Import),
            decreases paths@.len() - i,
        {
            items.push(BatchItem::new(paths[i].clone()));
            i += 1;
        }
        Batch { id: fresh_id(), name, items, auto_qa: true, stop_on_error: false }
    }

    /// A batch of already-ingested RAW files: jobs start at Analyze.
    pub fn from_imported(name: String, paths: Vec<String>) -> (res: Self)
        ensures
            batch_defaults(res, name@),
            res.items@.len() == paths@.len(),
            forall|i: int| 0 <= i < paths@.len()
                ==> fresh_item(#[trigger] res.items@[i], None, paths@[i]@, BatchStage::Analyze),
    {
        let mut items: Vec<BatchItem> = Vec::new();
        let mut i: usize = 0;
        while i < paths.len()
            invariant
                i <= paths@.len(),
                items@.len() == i,
                forall|j: int| 0 <= j < i
                    ==> fresh_item(#[trigger] items@[j], None, paths@[j]@, BatchStage::Analyze),
            decreases paths@.len() - i,
        {
            items.push(BatchItem::imported(paths[i].clone()));
            i += 1;
        }
        Batch { id: fresh_id(), name, items, auto_qa: true, stop_on_error: false }
    }

    /// A batch of catalogued RAW assets; each job keeps its asset identity.
    pub fn from_imported_assets(name: String, assets: Vec<(u128, String)>) -> (res: Self)
        ensures
            batch_defaults(res, name@),
            res.items@.len() == assets@.len(),
            forall|i: int| 0 <= i < assets@.len()
                ==> fresh_item(#[trigger] res.items@[i], Some(assets@[i].0), assets@[i].1@, BatchStage::Analyze),
    {
        let mut items: Vec<BatchItem> = Vec::new();
        let mut i: usize = 0;
        while i < assets.len()
            invariant
                i <= assets@.len(),
                items@.len() == i,
                forall|j: int| 0 <= j < i
                    ==> fresh_item(#[trigger] items@[j], Some(assets@[j].0), assets@[j].1@, BatchStage::Analyze),
            decreases assets@.len() - i,
        {
            items.push(BatchItem::imported_asset(assets[i].0, assets[i].1.clone()));
            i += 1;
        }
        Batch { id: fresh_id(), name, items, auto_qa: true, stop_on_error: false }
    }

    /// Number of jobs that are done (the numerator of the batch progress).
    pub fn done_count(&self) -> (res: usize)
        ensures
            res == self.items@.filter(|it: BatchItem| it.status == JobStatus::Done).len(),
    {
        let mut n: usize = 0;
        let mut i: usize = 0;
        while i < self.items.len()
            invariant
                i <= self.items@.len(),
                n == self.items@.take(i as int).filter(|it: BatchItem| it.status == JobStatus::Done).len(),
                n <= i,
            decreases self.items@.len() - i,
        {
            proof {
                reveal_with_fuel(Seq::filter, 1);
                assert(self.items@.take(i + 1).drop_last() =~= self.items@.take(i as int));
            }
            if self.items[i].status == JobStatus::Done {
                n += 1;
            }
            i += 1;
        }
        assert(self.items@.take(self.items@.len() as int) =~= self.items@);
        n
    }
}

} // verus!
