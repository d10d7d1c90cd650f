use photo_core::companion::{
    build_companion_decision_patch, check_catalog_identity, check_concurrent_state,
    check_patch_changes, check_patch_identity, companion_batch, companion_groups,
    companion_raw_assets, companion_source_path, hydration_decision, touched_assets,
    touched_groups, validate_snapshot_contents, plan_companion_patch, CompanionStoreWrite, CompanionAsset, CompanionCullingChange,
    CompanionDecisionPatch, CompanionError, CompanionReferenceChange, CompanionReferenceState,
    CompanionSnapshot, CullingMembership, COMPANION_SNAPSHOT_SCHEMA_VERSION,
};
use photo_core::batch::{BatchStage, JobStatus};
use photo_core::culling_store::{CullingReview, CullingUserDecision};
use photo_core::grouping::{GroupingBasis, PhotoGroup, PhotoGroupKind};
use photo_core::reference_store::GroupReferenceBinding;

const A1: u128 = 0x1111_0000_0000_0000_0000_0000_0000_0001;
const A2: u128 = 0x1111_0000_0000_0000_0000_0000_0000_0002;
const G1: u128 = 0x2222_0000_0000_0000_0000_0000_0000_0001;
const SET: u128 = 0x3333;

fn asset(id: u128, filename: &str) -> CompanionAsset {
    CompanionAsset {
        id,
        filename: filename.to_string(),
        extension: "cr3".to_string(),
        camera_id: Some("Canon EOS R5".to_string()),
        capture_time_ms: Some(1_800_000_000_000),
        file_time_ms: None,
        sequence_number: Some(1),
    }
}

fn group(id: u128, asset_ids: Vec<u128>) -> PhotoGroup {
    PhotoGroup { id, kind: PhotoGroupKind::Similar, basis: GroupingBasis::SemanticSimilarity, asset_ids, manual_locked: true }
}

fn snapshot() -> CompanionSnapshot {
    CompanionSnapshot {
        schema_version: COMPANION_SNAPSHOT_SCHEMA_VERSION,
        snapshot_id: 0x5,
        batch_id: 0xb,
        batch_name: "Trip".to_string(),
        assets: vec![asset(A1, "IMG_0001.CR3"), asset(A2, "IMG_0002.CR3")],
        groups: vec![PhotoGroup {
            id: G1,
            kind: PhotoGroupKind::Similar,
            basis: GroupingBasis::SemanticSimilarity,
            asset_ids: vec![A1, A2],
            manual_locked: true,
        }],
        culling: vec![CullingMembership { group_id: G1, asset_ids: vec![A1, A2] }],
        culling_reviews: vec![CullingReview { asset_id: A1, decision: CullingUserDecision::Keep }],
        references: vec![CompanionReferenceState {
            binding: GroupReferenceBinding { group_id: G1, reference_set_id: SET, selected_reference_asset_id: A1 },
            reference_set_id: SET,
            reference_photo_ids: vec![A1],
        }],
        metadata: vec![],
        previews: vec![],
    }
}

fn patch(culling: Vec<CompanionCullingChange>, references: Vec<CompanionReferenceChange>) -> CompanionDecisionPatch {
    CompanionDecisionPatch {
        schema_version: COMPANION_SNAPSHOT_SCHEMA_VERSION,
        base_snapshot_id: 0x5,
        batch_id: 0xb,
        culling_changes: culling,
        reference_changes: references,
    }
}

#[test]
fn consistent_snapshot_validates() {
    assert!(validate_snapshot_contents(&snapshot()).is_ok());
}

#[test]
fn snapshot_with_unknown_or_duplicate_content_is_refused() {
    let mut dup = snapshot();
    dup.assets.push(asset(A1, "copy.CR3"));
    assert!(matches!(validate_snapshot_contents(&dup), Err(CompanionError::DuplicateSnapshotAsset(a)) if a == A1));
    let mut stranger = snapshot();
    stranger.groups[0].asset_ids.push(0x99);
    assert!(matches!(validate_snapshot_contents(&stranger), Err(CompanionError::UnknownAsset(0x99))));
    let mut outside = snapshot();
    outside.references[0].reference_photo_ids = vec![A2];
    assert!(matches!(validate_snapshot_contents(&outside), Err(CompanionError::ReferenceOutsideGroup { .. })));
}

#[test]
fn snapshot_problems_are_reported_in_check_order() {
    // An unknown member of an earlier group comes before a later repeated group id.
    let mut s = snapshot();
    s.groups[0].asset_ids.push(0x77);
    s.groups.push(group(G1, vec![A1]));
    assert!(matches!(validate_snapshot_contents(&s), Err(CompanionError::UnknownAsset(0x77))));
    // A repeated group id comes before an unknown member of that same group.
    let mut t = snapshot();
    t.groups.push(group(G1, vec![A1, 0x78]));
    assert!(matches!(validate_snapshot_contents(&t), Err(CompanionError::DuplicateSnapshotGroup(g)) if g == G1));
    // A repeated asset comes before everything else.
    let mut u = t;
    u.assets.push(asset(A2, "again.CR3"));
    assert!(matches!(validate_snapshot_contents(&u), Err(CompanionError::DuplicateSnapshotAsset(a)) if a == A2));
    // A reference set that does not match its binding.
    let mut v = snapshot();
    v.references[0].reference_set_id = 0x4444;
    assert!(matches!(validate_snapshot_contents(&v), Err(CompanionError::Reference(_))));
}

#[test]
fn patch_holds_only_changes() {
    let s = snapshot();
    let p = build_companion_decision_patch(&s, &vec![Some(CullingUserDecision::Keep), Some(CullingUserDecision::Reject)], &vec![Some(A1)])
        .ok()
        .unwrap();
    assert_eq!(p.culling_changes, vec![CompanionCullingChange { asset_id: A2, decision: Some(CullingUserDecision::Reject) }]);
    assert!(p.reference_changes.is_empty());
    assert_eq!(p.base_snapshot_id, 0x5);
    let cleared = build_companion_decision_patch(&s, &vec![None, None], &vec![None]).ok().unwrap();
    assert_eq!(cleared.culling_changes, vec![CompanionCullingChange { asset_id: A1, decision: None }]);
    assert_eq!(cleared.reference_changes, vec![CompanionReferenceChange { group_id: G1, selected_reference_asset_id: None }]);
}

#[test]
fn patch_must_match_snapshot_and_batch() {
    let s = snapshot();
    assert!(check_patch_identity(&s, &patch(vec![], vec![])).is_ok());
    let mut other = patch(vec![], vec![]);
    other.base_snapshot_id = 0x6;
    assert!(matches!(check_patch_identity(&s, &other), Err(CompanionError::SnapshotMismatch { expected: 0x5, actual: 0x6 })));
    let mut old = patch(vec![], vec![]);
    old.schema_version = 2;
    assert!(matches!(check_patch_identity(&s, &old), Err(CompanionError::UnsupportedSchema(2))));
}

#[test]
fn applies_valid_changes_and_reports_counts() {
    let p = patch(
        vec![CompanionCullingChange { asset_id: A2, decision: Some(CullingUserDecision::Keep) }],
        vec![CompanionReferenceChange { group_id: G1, selected_reference_asset_id: Some(A2) }],
    );
    let report = check_patch_changes(&snapshot(), &p).ok().unwrap();
    assert_eq!(report.culling_changes_applied, 1);
    assert_eq!(report.reference_changes_applied, 1);
}

#[test]
fn rejects_reference_that_patch_also_rejects() {
    let p = patch(
        vec![CompanionCullingChange { asset_id: A2, decision: Some(CullingUserDecision::Reject) }],
        vec![CompanionReferenceChange { group_id: G1, selected_reference_asset_id: Some(A2) }],
    );
    assert!(matches!(check_patch_changes(&snapshot(), &p), Err(CompanionError::RejectedReference { group_id: G1, asset_id: A2 })));
}

#[test]
fn cannot_reject_existing_reference_without_clearing_it() {
    let p = patch(vec![CompanionCullingChange { asset_id: A1, decision: Some(CullingUserDecision::Reject) }], vec![]);
    assert!(matches!(check_patch_changes(&snapshot(), &p), Err(CompanionError::RejectedReference { group_id: G1, asset_id: A1 })));
    let cleared = patch(
        vec![CompanionCullingChange { asset_id: A1, decision: Some(CullingUserDecision::Reject) }],
        vec![CompanionReferenceChange { group_id: G1, selected_reference_asset_id: None }],
    );
    assert!(check_patch_changes(&snapshot(), &cleared).is_ok());
}

#[test]
fn duplicate_changes_are_rejected() {
    let p = patch(
        vec![
            CompanionCullingChange { asset_id: A2, decision: Some(CullingUserDecision::Keep) },
            CompanionCullingChange { asset_id: A2, decision: None },
        ],
        vec![],
    );
    assert!(matches!(check_patch_changes(&snapshot(), &p), Err(CompanionError::DuplicateCullingChange(a)) if a == A2));
    let q = patch(
        vec![],
        vec![
            CompanionReferenceChange { group_id: G1, selected_reference_asset_id: None },
            CompanionReferenceChange { group_id: G1, selected_reference_asset_id: None },
        ],
    );
    assert!(matches!(check_patch_changes(&snapshot(), &q), Err(CompanionError::DuplicateReferenceChange(g)) if g == G1));
    let unknown = patch(vec![CompanionCullingChange { asset_id: 0x42, decision: None }], vec![]);
    assert!(matches!(check_patch_changes(&snapshot(), &unknown), Err(CompanionError::UnknownAsset(0x42))));
}

#[test]
fn workstation_changes_to_touched_items_block_the_patch() {
    let s = snapshot();
    let p = patch(vec![CompanionCullingChange { asset_id: A1, decision: Some(CullingUserDecision::Review) }], vec![]);
    let assets = touched_assets(&p);
    assert_eq!(assets, vec![A1]);
    let groups = touched_groups(&s, &p);
    assert_eq!(groups, vec![G1]);
    let binding = GroupReferenceBinding { group_id: G1, reference_set_id: SET, selected_reference_asset_id: A1 };
    assert!(check_concurrent_state(&s, &assets, &vec![Some(CullingUserDecision::Keep)], &groups, &vec![Some(binding)]).is_ok());
    assert!(matches!(
        check_concurrent_state(&s, &assets, &vec![Some(CullingUserDecision::Reject)], &groups, &vec![Some(binding)]),
        Err(CompanionError::ConcurrentCullingChange(a)) if a == A1
    ));
    assert!(matches!(
        check_concurrent_state(&s, &assets, &vec![Some(CullingUserDecision::Keep)], &groups, &vec![None]),
        Err(CompanionError::ConcurrentReferenceChange(g)) if g == G1
    ));
}

#[test]
fn unrelated_change_touches_nothing_else() {
    let s = snapshot();
    let p = patch(vec![CompanionCullingChange { asset_id: A2, decision: Some(CullingUserDecision::Review) }], vec![]);
    assert_eq!(touched_groups(&s, &p), Vec::<u128>::new());
}

#[test]
fn hydration_refuses_to_replace_an_unsynced_baseline() {
    let s = snapshot();
    assert!(matches!(hydration_decision(&s, None), Ok(true)));
    assert!(matches!(hydration_decision(&s, Some(0x5)), Ok(false)));
    assert!(matches!(
        hydration_decision(&s, Some(0x7)),
        Err(CompanionError::SnapshotReplacementConflict { existing_snapshot_id: 0x7, incoming_snapshot_id: 0x5, .. })
    ));
}

#[test]
fn hydrated_assets_never_reveal_a_workstation_path() {
    let a = asset(A1, "dir/IMG\\0001.CR3");
    assert_eq!(
        companion_source_path(0xb, &a),
        "companion://00000000-0000-0000-0000-00000000000b/11110000-0000-0000-0000-000000000001/dir_IMG_0001.CR3"
    );
    let s = snapshot();
    let raw = companion_raw_assets(&s);
    assert_eq!(raw.len(), 2);
    assert!(raw[0].source_path.starts_with("companion://"));
    assert!(check_catalog_identity(&raw, &raw).is_ok());
    let mut moved = raw.clone();
    moved[1].id = 0x77;
    assert!(matches!(check_catalog_identity(&raw, &moved), Err(CompanionError::AssetIdentityMismatch { actual: 0x77, .. })));
    let groups = companion_groups(&s);
    assert!(!groups[0].manual_locked);
    let batch = companion_batch(&s, &raw);
    assert_eq!(batch.id, 0xb);
    assert_eq!(batch.items.len(), 2);
    assert_eq!(batch.items[1].asset_id, Some(A2));
    assert_eq!(batch.items[1].stage, BatchStage::Done);
    assert_eq!(batch.items[1].status, JobStatus::Done);
}

#[test]
fn patch_plan_runs_the_checks_in_turn_and_writes_only_changes() {
    let s = snapshot();
    let binding = GroupReferenceBinding { group_id: G1, reference_set_id: SET, selected_reference_asset_id: A1 };
    // Identity first: a foreign patch is refused whatever the workstation holds.
    let mut foreign = patch(vec![CompanionCullingChange { asset_id: A1, decision: None }], vec![]);
    foreign.batch_id = 0xc;
    assert!(matches!(
        plan_companion_patch(&s, &foreign, &vec![A1], &vec![None], &vec![G1], &vec![None]),
        Err(CompanionError::BatchMismatch { expected: 0xb, actual: 0xc })
    ));
    // Then the workstation's state of what the patch touches.
    let p = patch(
        vec![CompanionCullingChange { asset_id: A1, decision: None }],
        vec![CompanionReferenceChange { group_id: G1, selected_reference_asset_id: None }],
    );
    assert!(matches!(
        plan_companion_patch(&s, &p, &vec![A1], &vec![Some(CullingUserDecision::Reject)], &vec![G1], &vec![Some(binding)]),
        Err(CompanionError::ConcurrentCullingChange(a)) if a == A1
    ));
    // Then the changes; an accepted patch clears what it clears.
    let plan = plan_companion_patch(&s, &p, &vec![A1], &vec![Some(CullingUserDecision::Keep)], &vec![G1], &vec![Some(binding)])
        .ok()
        .unwrap();
    assert_eq!(plan.report.culling_changes_applied, 1);
    assert_eq!(plan.report.reference_changes_applied, 1);
    assert_eq!(plan.writes, vec![CompanionStoreWrite::ClearDecision(A1), CompanionStoreWrite::ClearReference(G1)]);
    let unknown = patch(vec![CompanionCullingChange { asset_id: 0x42, decision: None }], vec![]);
    assert!(matches!(plan_companion_patch(&s, &unknown, &vec![], &vec![], &vec![], &vec![]), Err(CompanionError::UnknownAsset(0x42))));
}
