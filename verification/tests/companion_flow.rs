use photo_core::batch::JobStatus;
use photo_core::companion::{
    build_companion_decision_patch, check_patch_identity, plan_companion_patch, CompanionPatchPlan,
    CompanionStoreWrite,
    companion_batch, companion_groups, companion_raw_assets, hydration_decision, touched_assets, touched_groups,
    CompanionAsset, CompanionCullingChange, CompanionDecisionPatch, CompanionError, CompanionReferenceChange,
    CompanionReferenceState, CompanionSnapshot, COMPANION_SNAPSHOT_SCHEMA_VERSION,
};
use photo_core::culling_store::CullingUserDecision;
use photo_core::grouping::{GroupingBasis, PhotoGroup, PhotoGroupKind};
use photo_core::reference_store::GroupReferenceBinding;

const ASSET: u128 = 0x0a55_e700_0000_0000_0000_0000_0000_0001;
const UNRELATED: u128 = 0x0a55_e700_0000_0000_0000_0000_0000_0002;
const GROUP: u128 = 0x0960_0000_0000_0000_0000_0000_0000_0001;

/// One photo in one group, with no decision and no reference yet.
fn snapshot(asset_id: u128, group_id: u128) -> CompanionSnapshot {
    CompanionSnapshot {
        schema_version: COMPANION_SNAPSHOT_SCHEMA_VERSION,
        snapshot_id: 0x51,
        batch_id: 0xba,
        batch_name: "Trip".into(),
        assets: vec![CompanionAsset {
            id: asset_id,
            filename: "IMG_0001.CR3".into(),
            extension: "cr3".into(),
            camera_id: Some("Canon EOS R5".into()),
            capture_time_ms: Some(1_800_000_000_000),
            file_time_ms: None,
            sequence_number: Some(1),
        }],
        groups: vec![PhotoGroup {
            id: group_id,
            kind: PhotoGroupKind::Similar,
            basis: GroupingBasis::SemanticSimilarity,
            asset_ids: vec![asset_id],
            manual_locked: false,
        }],
        culling: Vec::new(),
        culling_reviews: Vec::new(),
        references: Vec::new(),
        metadata: Vec::new(),
        previews: Vec::new(),
    }
}

fn patch(
    snapshot: &CompanionSnapshot,
    culling_changes: Vec<CompanionCullingChange>,
    reference_changes: Vec<CompanionReferenceChange>,
) -> CompanionDecisionPatch {
    CompanionDecisionPatch {
        schema_version: COMPANION_SNAPSHOT_SCHEMA_VERSION,
        base_snapshot_id: snapshot.snapshot_id,
        batch_id: snapshot.batch_id,
        culling_changes,
        reference_changes,
    }
}

/// Decides a patch as the workstation does: the patch identity, the
/// workstation's state of every touched photo and group, then the changes.
/// Only an accepted patch comes with writes.
fn apply_checks(
    snapshot: &CompanionSnapshot,
    patch: &CompanionDecisionPatch,
    decision_of: impl Fn(u128) -> Option<CullingUserDecision>,
    binding_of: impl Fn(u128) -> Option<GroupReferenceBinding>,
) -> Result<CompanionPatchPlan, CompanionError> {
    check_patch_identity(snapshot, patch)?;
    let assets = touched_assets(patch);
    let groups = touched_groups(snapshot, patch);
    let decisions = assets.iter().map(|a| decision_of(*a)).collect();
    let bindings = groups.iter().map(|g| binding_of(*g)).collect();
    plan_companion_patch(snapshot, patch, &assets, &decisions, &groups, &bindings)
}

#[test]
fn hydrate_snapshot_creates_mobile_project_and_patch_contains_only_changes() {
    let snapshot = snapshot(ASSET, GROUP);
    assert!(matches!(hydration_decision(&snapshot, None), Ok(true)));
    let assets = companion_raw_assets(&snapshot);
    let batch = companion_batch(&snapshot, &assets);
    assert_eq!(batch.name, "Trip");
    assert_eq!(batch.items[0].status, JobStatus::Done);
    assert_eq!(companion_groups(&snapshot)[0].id, GROUP);

    let patch = build_companion_decision_patch(&snapshot, &vec![Some(CullingUserDecision::Keep)], &vec![Some(ASSET)])
        .ok()
        .unwrap();
    assert_eq!(
        patch.culling_changes,
        vec![CompanionCullingChange { asset_id: ASSET, decision: Some(CullingUserDecision::Keep) }]
    );
    assert_eq!(
        patch.reference_changes,
        vec![CompanionReferenceChange { group_id: GROUP, selected_reference_asset_id: Some(ASSET) }]
    );
}

#[test]
fn different_snapshot_cannot_replace_unsynced_mobile_baseline() {
    let first = snapshot(ASSET, GROUP);
    assert!(matches!(hydration_decision(&first, None), Ok(true)));
    let mut second = snapshot(ASSET, GROUP);
    second.snapshot_id = 0x52;
    assert!(matches!(
        hydration_decision(&second, Some(first.snapshot_id)),
        Err(CompanionError::SnapshotReplacementConflict { .. })
    ));
}

#[test]
fn applies_valid_cull_and_reference_patch() {
    let snapshot = snapshot(ASSET, GROUP);
    let patch = patch(
        &snapshot,
        vec![CompanionCullingChange { asset_id: ASSET, decision: Some(CullingUserDecision::Keep) }],
        vec![CompanionReferenceChange { group_id: GROUP, selected_reference_asset_id: Some(ASSET) }],
    );
    let plan = apply_checks(&snapshot, &patch, |_| None, |_| None).ok().unwrap();
    assert_eq!((plan.report.culling_changes_applied, plan.report.reference_changes_applied), (1, 1));
    assert_eq!(
        plan.writes,
        vec![
            CompanionStoreWrite::SetDecision { asset_id: ASSET, decision: CullingUserDecision::Keep },
            CompanionStoreWrite::SetReference { group_id: GROUP, asset_id: ASSET },
        ]
    );
}

#[test]
fn cannot_reject_existing_reference_without_clearing_or_replacing_it() {
    let mut snapshot = snapshot(ASSET, GROUP);
    let binding = GroupReferenceBinding { group_id: GROUP, reference_set_id: 0x5e7, selected_reference_asset_id: ASSET };
    snapshot.references.push(CompanionReferenceState { binding, reference_set_id: 0x5e7, reference_photo_ids: vec![ASSET] });
    let patch = patch(
        &snapshot,
        vec![CompanionCullingChange { asset_id: ASSET, decision: Some(CullingUserDecision::Reject) }],
        Vec::new(),
    );
    assert!(matches!(
        apply_checks(&snapshot, &patch, |_| None, |_| Some(binding)),
        Err(CompanionError::RejectedReference { group_id: id, asset_id: asset }) if id == GROUP && asset == ASSET
    ));
}

#[test]
fn duplicate_changes_are_rejected_before_writes() {
    let snapshot = snapshot(ASSET, GROUP);
    let patch = patch(
        &snapshot,
        vec![
            CompanionCullingChange { asset_id: ASSET, decision: Some(CullingUserDecision::Keep) },
            CompanionCullingChange { asset_id: ASSET, decision: Some(CullingUserDecision::Review) },
        ],
        Vec::new(),
    );
    assert!(matches!(
        apply_checks(&snapshot, &patch, |_| None, |_| None),
        Err(CompanionError::DuplicateCullingChange(id)) if id == ASSET
    ));
}

#[test]
fn unrelated_workstation_change_does_not_block_patch() {
    let snapshot = snapshot(ASSET, GROUP);
    let workstation = |a: u128| if a == UNRELATED { Some(CullingUserDecision::Review) } else { None };
    let patch = patch(
        &snapshot,
        vec![CompanionCullingChange { asset_id: ASSET, decision: Some(CullingUserDecision::Keep) }],
        Vec::new(),
    );
    assert!(apply_checks(&snapshot, &patch, workstation, |_| None).is_ok());
}

#[test]
fn refuses_silent_overwrite_after_workstation_decision_changed() {
    let snapshot = snapshot(ASSET, GROUP);
    let patch = patch(
        &snapshot,
        vec![CompanionCullingChange { asset_id: ASSET, decision: Some(CullingUserDecision::Keep) }],
        Vec::new(),
    );
    assert!(matches!(
        apply_checks(&snapshot, &patch, |_| Some(CullingUserDecision::Review), |_| None),
        Err(CompanionError::ConcurrentCullingChange(id)) if id == ASSET
    ));
}
