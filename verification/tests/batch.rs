use photo_core::batch::{Batch, BatchItem, BatchStage, JobStatus};
use photo_core::worker::{continue_after_step, needs_resume, next_action, BatchControlState, WorkerAction, WorkerIntent};

#[test]
fn job_can_resume_from_failed_stage() {
    let mut item = BatchItem::new("sample.jpg".to_string());
    item.start();
    item.complete_stage();
    assert_eq!(item.stage, BatchStage::Analyze);

    item.start();
    item.fail("model unavailable".to_string());
    assert_eq!(item.status, JobStatus::Failed);
    assert_eq!(item.stage, BatchStage::Analyze);

    item.retry();
    assert_eq!(item.status, JobStatus::Pending);
    assert_eq!(item.stage, BatchStage::Analyze);
}

#[test]
fn analyzed_import_becomes_ready_without_fake_edit_export_stages() {
    let mut item = BatchItem::imported_asset(0x1234_5678_9abc_def0_1234_5678_9abc_def0, "sample.cr3".to_string());
    assert_eq!(item.stage, BatchStage::Analyze);
    item.start();
    item.complete_stage();
    assert_eq!(item.stage, BatchStage::Done);
    assert_eq!(item.status, JobStatus::Done);
}

#[test]
fn imported_asset_keeps_catalog_identity() {
    let asset_id = 0xfeed_beef_u128;
    let batch = Batch::from_imported_assets("raw".to_string(), vec![(asset_id, "sample.cr3".to_string())]);
    assert_eq!(batch.items[0].asset_id, Some(asset_id));
    assert_eq!(batch.items[0].stage, BatchStage::Analyze);
}

#[test]
fn edit_stages_run_in_order_to_done() {
    let mut stage = BatchStage::ApplyPreset;
    let mut seen = vec![stage];
    while stage != BatchStage::Done {
        stage = stage.next();
        seen.push(stage);
    }
    assert_eq!(
        seen,
        vec![
            BatchStage::ApplyPreset,
            BatchStage::PortraitRetouch,
            BatchStage::Qa,
            BatchStage::Export,
            BatchStage::Done
        ]
    );
    assert_eq!(BatchStage::Import.next(), BatchStage::Analyze);
    assert_eq!(BatchStage::Done.next(), BatchStage::Done);
}

#[test]
fn done_count_counts_finished_jobs() {
    let mut batch = Batch::new("trip".to_string(), vec!["a.cr3".to_string(), "b.cr3".to_string()]);
    assert_eq!(batch.done_count(), 0);
    assert_eq!(batch.items.len(), 2);
    batch.items[0].status = JobStatus::Done;
    assert_eq!(batch.done_count(), 1);
    assert!(batch.auto_qa);
    assert!(!batch.stop_on_error);
}

#[test]
fn second_start_does_not_spawn_another_worker() {
    let mut control = BatchControlState::default();
    assert!(control.start());
    assert!(!control.start());
    assert!(control.worker_active);
    assert!(control.set_intent(WorkerIntent::Paused));
    assert_eq!(next_action(control.intent), WorkerAction::PauseBatch);
    control.finish();
    assert!(!control.worker_active);
    assert!(control.start());
    assert_eq!(control.intent, WorkerIntent::Running);
}

#[test]
fn worker_actions_follow_intent() {
    assert_eq!(next_action(WorkerIntent::Running), WorkerAction::RunNextStep);
    assert_eq!(next_action(WorkerIntent::Paused), WorkerAction::PauseBatch);
    assert_eq!(next_action(WorkerIntent::Cancelled), WorkerAction::CancelBatch);
}

#[test]
fn worker_stops_when_idle_or_on_failure_when_asked() {
    let mut batch = Batch::new("trip".to_string(), vec!["a.cr3".to_string()]);
    assert!(continue_after_step(false, &batch));
    assert!(!continue_after_step(true, &batch));
    batch.items[0].status = JobStatus::Failed;
    assert!(continue_after_step(false, &batch));
    batch.stop_on_error = true;
    assert!(!continue_after_step(false, &batch));
    assert!(!needs_resume(&batch));
    batch.items[0].status = JobStatus::Paused;
    assert!(needs_resume(&batch));
}
