use photo_core::analysis::{task_to_db, InferenceTask, OnlineInferencePolicy};
use photo_core::bracketing::{find_bracket_windows, split_bracket_sources};
use photo_core::catalog::{
    bool_to_int, canonical_asset, check_semantic_parents, effective_groups, group_kind_from_db,
    group_kind_to_db, grouping_basis_from_db, grouping_basis_to_db, CatalogError,
};
use photo_core::classification::{processing_route, reclassification_invalidation, should_run_portrait_retouch, PhotoCategory, ProcessingRoute};
use photo_core::color_sync::promotion_invalidation;
use photo_core::culling_store::{
    check_undo, decision_from_db, decision_to_db, quick_cull_reviews, CullingReview,
    CullingReviewStoreError, CullingUserDecision, MomentQuickCullOperation, QuickCullError,
    QuickCullGroup, QuickCullSelection,
};
use photo_core::grouping::{GroupingBasis, PhotoGroup, PhotoGroupKind};
use photo_core::ids::id_listed;
use photo_core::models::{BundledModelSpec, ModelBundleManifest, ModelPlatform, ModelVariant};
use photo_core::preview::{is_current_preview, preview_cache_path, PreviewArtifact, PreviewSource};
use photo_core::raw::RawAsset;
use photo_core::recipe_review_store::{
    check_override_target, check_unique_overrides, confirmation_targets, is_confirmed,
    RecipeReviewStoreError, RecipeReviewSyncFields,
};
use photo_core::reference_store::{group_binding_for, ReferenceStoreError};

fn group(id: u128, assets: Vec<u128>, locked: bool) -> PhotoGroup {
    PhotoGroup { id, kind: PhotoGroupKind::Moment, basis: GroupingBasis::Time, asset_ids: assets, manual_locked: locked }
}

#[test]
fn catalog_names_round_trip() {
    for kind in [PhotoGroupKind::Moment, PhotoGroupKind::Similar, PhotoGroupKind::Manual] {
        assert_eq!(group_kind_from_db(group_kind_to_db(kind)).ok(), Some(kind));
    }
    for basis in [
        GroupingBasis::Time,
        GroupingBasis::TimeAndSequence,
        GroupingBasis::SequenceFallback,
        GroupingBasis::SemanticSimilarity,
        GroupingBasis::Singleton,
    ] {
        assert_eq!(grouping_basis_from_db(grouping_basis_to_db(basis)).ok(), Some(basis));
    }
    assert_eq!(grouping_basis_to_db(GroupingBasis::SemanticSimilarity), "SEMANTIC_SIMILARITY");
    assert!(matches!(group_kind_from_db("BURST"), Err(CatalogError::InvalidGroupKind(t)) if t == "BURST"));
    assert_eq!(bool_to_int(true), 1);
    assert_eq!(bool_to_int(false), 0);
}

#[test]
fn reimport_keeps_stable_asset_id() {
    let incoming = RawAsset {
        id: 0x2,
        source_path: "raw/a.cr3".to_string(),
        filename: "a.cr3".to_string(),
        extension: "cr3".to_string(),
        camera_id: None,
        capture_time_ms: Some(5),
        file_time_ms: None,
        sequence_number: None,
    };
    assert_eq!(canonical_asset(&incoming, Some(0x1)).id, 0x1);
    assert_eq!(canonical_asset(&incoming, None).id, 0x2);
    assert_eq!(canonical_asset(&incoming, Some(0x1)).capture_time_ms, Some(5));
}

#[test]
fn effective_groups_keep_locked_and_unrefined_parents() {
    let parents = vec![group(1, vec![10, 11], true), group(2, vec![20, 21], false), group(3, vec![30], false)];
    let refined = vec![vec![group(9, vec![10], false)], vec![group(4, vec![20], false), group(5, vec![21], false)], vec![]];
    let effective = effective_groups(parents, refined);
    let ids: Vec<u128> = effective.iter().map(|g| g.id).collect();
    assert_eq!(ids, vec![1, 4, 5, 3]);
}

#[test]
fn semantic_children_must_share_the_parent() {
    assert!(check_semantic_parents(7, &[(1, 7), (2, 7)]).is_ok());
    assert!(matches!(
        check_semantic_parents(7, &[(1, 7), (2, 8), (3, 9)]),
        Err(CatalogError::SemanticParentMismatch { group_id: 2, parent_group_id: 7 })
    ));
}

#[test]
fn culling_decisions_round_trip() {
    for d in [CullingUserDecision::Keep, CullingUserDecision::Review, CullingUserDecision::Reject] {
        assert_eq!(decision_from_db(decision_to_db(d)).ok(), Some(d));
    }
    assert!(matches!(decision_from_db("MAYBE"), Err(CullingReviewStoreError::InvalidDecision(t)) if t == "MAYBE"));
}

fn operation() -> MomentQuickCullOperation {
    MomentQuickCullOperation {
        operation_id: 0x99,
        batch_id: 0x1,
        group_ids: vec![0x2],
        reviews: vec![
            CullingReview { asset_id: 0x10, decision: CullingUserDecision::Keep },
            CullingReview { asset_id: 0x11, decision: CullingUserDecision::Reject },
        ],
        created_at_unix_ms: 1_000,
    }
}

#[test]
fn quick_cull_undo_refuses_to_erase_later_photographer_changes() {
    let op = operation();
    let untouched = vec![Some(("KEEP".to_string(), 1_000)), Some(("REJECT".to_string(), 1_000))];
    assert!(check_undo(&op, &untouched).is_ok());
    let changed = vec![Some(("KEEP".to_string(), 1_000)), Some(("REVIEW".to_string(), 2_000))];
    assert!(matches!(check_undo(&op, &changed), Err(CullingReviewStoreError::OperationStale(0x99))));
    let rewritten_later = vec![Some(("KEEP".to_string(), 1_500)), Some(("REJECT".to_string(), 1_000))];
    assert!(matches!(check_undo(&op, &rewritten_later), Err(CullingReviewStoreError::OperationStale(0x99))));
    let cleared = vec![None, Some(("REJECT".to_string(), 1_000))];
    assert!(matches!(check_undo(&op, &cleared), Err(CullingReviewStoreError::OperationStale(0x99))));
}

fn selected(group_id: u128, keep: Vec<u128>, review: Vec<u128>, reject: Vec<u128>) -> QuickCullGroup {
    QuickCullGroup {
        group_id,
        in_batch: true,
        has_reference: false,
        has_reviews: false,
        plan: Some(QuickCullSelection { group_id, keep_asset_ids: keep, review_asset_ids: review, reject_asset_ids: reject }),
    }
}

#[test]
fn quick_cull_writes_keeps_reviews_and_rejects_once() {
    let selections = vec![selected(1, vec![10], vec![11], vec![12]), selected(2, vec![20], vec![], vec![])];
    let reviews = quick_cull_reviews(&selections).ok().unwrap();
    let pairs: Vec<(u128, CullingUserDecision)> = reviews.iter().map(|r| (r.asset_id, r.decision)).collect();
    assert_eq!(
        pairs,
        vec![
            (10, CullingUserDecision::Keep),
            (11, CullingUserDecision::Review),
            (12, CullingUserDecision::Reject),
            (20, CullingUserDecision::Keep)
        ]
    );
    let twice = vec![selected(1, vec![10], vec![], vec![]), selected(1, vec![30], vec![], vec![])];
    assert!(matches!(quick_cull_reviews(&twice), Err(QuickCullError::DuplicateGroup(1))));
    let shared = vec![selected(1, vec![10], vec![], vec![]), selected(2, vec![40], vec![10], vec![])];
    assert!(matches!(quick_cull_reviews(&shared), Err(QuickCullError::AssetInSeveralGroups(10))));
}

#[test]
fn quick_cull_refuses_an_empty_selection_and_ineligible_groups_in_order() {
    assert!(matches!(quick_cull_reviews(&vec![]), Err(QuickCullError::NoGroupsSelected)));
    let mut outside = selected(3, vec![30], vec![], vec![]);
    outside.in_batch = false;
    let mut bound = selected(4, vec![40], vec![], vec![]);
    bound.has_reference = true;
    let mut reviewed = selected(5, vec![50], vec![], vec![]);
    reviewed.has_reviews = true;
    let mut no_plan = selected(6, vec![], vec![], vec![]);
    no_plan.plan = None;
    assert!(matches!(
        quick_cull_reviews(&vec![selected(1, vec![10], vec![], vec![]), outside]),
        Err(QuickCullError::GroupOutsideBatch(3))
    ));
    assert!(matches!(quick_cull_reviews(&vec![bound]), Err(QuickCullError::GroupHasReference(4))));
    assert!(matches!(quick_cull_reviews(&vec![reviewed]), Err(QuickCullError::GroupHasReviews(5))));
    assert!(matches!(quick_cull_reviews(&vec![no_plan]), Err(QuickCullError::NotEligible(6))));
    // An earlier repeated group is reported before a later group's own problem.
    let mut late_outside = selected(7, vec![70], vec![], vec![]);
    late_outside.in_batch = false;
    assert!(matches!(
        quick_cull_reviews(&vec![selected(1, vec![10], vec![], vec![]), selected(1, vec![11], vec![], vec![]), late_outside]),
        Err(QuickCullError::DuplicateGroup(1))
    ));
}

#[test]
fn recipe_review_batches_name_each_photo_once() {
    assert!(check_unique_overrides(&[1, 2, 3]).is_ok());
    assert!(matches!(check_unique_overrides(&[1, 2, 1, 2]), Err(RecipeReviewStoreError::DuplicateOverride(1))));
    assert_eq!(confirmation_targets(&[(100, Some(1)), (101, Some(2))]).ok(), Some(vec![1, 2]));
    assert!(matches!(confirmation_targets(&[(100, Some(1)), (101, None)]), Err(RecipeReviewStoreError::RecipeMissingTarget(101))));
    assert!(matches!(confirmation_targets(&[(100, Some(1)), (101, Some(1))]), Err(RecipeReviewStoreError::DuplicateConfirmation(1))));
}

#[test]
fn override_cannot_move_to_another_recipe_target() {
    assert!(check_override_target(5, Some(1), 1).is_ok());
    assert!(matches!(
        check_override_target(5, Some(1), 2),
        Err(RecipeReviewStoreError::TargetMismatch { recipe_id: 5, recipe_asset_id: 1, override_asset_id: 2 })
    ));
    assert!(matches!(check_override_target(5, None, 2), Err(RecipeReviewStoreError::RecipeMissingTarget(5))));
}

#[test]
fn confirmation_tracks_the_current_fingerprint() {
    assert!(is_confirmed(Some("abc"), "abc"));
    assert!(!is_confirmed(Some("abc"), "abd"));
    assert!(!is_confirmed(None, "abc"));
}

#[test]
fn sync_fields_any_is_true_when_one_field_is_selected() {
    let none = RecipeReviewSyncFields {
        exposure: false,
        highlights: false,
        shadows: false,
        whites: false,
        blacks: false,
        contrast: false,
        saturation: false,
    };
    assert!(!none.any());
    let mut one = none;
    one.blacks = true;
    assert!(one.any());
}

#[test]
fn task_names_match_the_cache_schema() {
    assert_eq!(task_to_db(InferenceTask::ImageEmbedding), "IMAGE_EMBEDDING");
    assert_eq!(task_to_db(InferenceTask::QualityScoring), "QUALITY_SCORING");
    assert_eq!(OnlineInferencePolicy::default(), OnlineInferencePolicy::Disabled);
}

fn variant(platform: ModelPlatform, file: &str) -> ModelVariant {
    ModelVariant {
        platform,
        format: "TFLITE".to_string(),
        file: file.to_string(),
        source_url: String::new(),
        sha256: String::new(),
        size_bytes: 1,
    }
}

fn model(id: &str, task: InferenceTask, variants: Vec<ModelVariant>) -> BundledModelSpec {
    BundledModelSpec {
        id: id.to_string(),
        version: "1".to_string(),
        task,
        license: String::new(),
        homepage: String::new(),
        labels: vec![],
        variants,
    }
}

#[test]
fn variant_prefers_platform_build_then_shared() {
    let manifest = ModelBundleManifest {
        schema_version: 1,
        online_inference_policy: OnlineInferencePolicy::Disabled,
        models: vec![
            model("faces", InferenceTask::FaceDetection, vec![variant(ModelPlatform::Windows, "faces-win.onnx"), variant(ModelPlatform::Shared, "faces.tflite")]),
            model("embed", InferenceTask::ImageEmbedding, vec![variant(ModelPlatform::Shared, "embed.tflite")]),
            model("embed-2", InferenceTask::ImageEmbedding, vec![]),
        ],
    };
    assert_eq!(manifest.model_for_task(InferenceTask::ImageEmbedding).map(|m| m.id.clone()), Some("embed".to_string()));
    assert!(manifest.model_for_task(InferenceTask::Segmentation).is_none());
    let (_, win) = manifest.variant_for(InferenceTask::FaceDetection, ModelPlatform::Windows).unwrap();
    assert_eq!(win.file, "faces-win.onnx");
    let (_, android) = manifest.variant_for(InferenceTask::FaceDetection, ModelPlatform::Android).unwrap();
    assert_eq!(android.file, "faces.tflite");
    let (_, shared) = manifest.variant_for(InferenceTask::ImageEmbedding, ModelPlatform::Android).unwrap();
    assert_eq!(shared.platform, ModelPlatform::Shared);
}

#[test]
fn preview_path_is_sanitised_and_current_needs_exact_revision() {
    let path = preview_cache_path("cache", 0x1, "embedded preview/v1");
    assert_eq!(path, "cache/previews/00000000-0000-0000-0000-000000000001-embedded_preview_v1.jpg");
    let artifact = PreviewArtifact {
        asset_id: 0x1,
        source_fingerprint: "raw-v1".to_string(),
        revision: "embedded-preview-v1".to_string(),
        cache_path: path,
        mime_type: "image/jpeg".to_string(),
        width: 1600,
        height: 1067,
        source: PreviewSource::EmbeddedRawPreview,
    };
    let stored = Some(artifact);
    assert!(is_current_preview(&stored, "raw-v1", "embedded-preview-v1"));
    assert!(!is_current_preview(&stored, "raw-v2", "embedded-preview-v1"));
    assert!(!is_current_preview(&None, "raw-v1", "embedded-preview-v1"));
}

#[test]
fn ids_are_written_as_hyphenated_uuids() {
    assert_eq!(
        preview_cache_path("c", 0x0123_4567_89ab_cdef_0123_4567_89ab_cdef, "r"),
        "c/previews/01234567-89ab-cdef-0123-456789abcdef-r.jpg"
    );
    assert!(id_listed(&[1, 2, 3], 2));
    assert!(!id_listed(&[1, 2, 3], 4));
}

#[test]
fn classification_routes_and_retouch_gate() {
    assert_eq!(processing_route(PhotoCategory::Portrait), ProcessingRoute::Portrait);
    assert_eq!(processing_route(PhotoCategory::NonPortrait), ProcessingRoute::Scene);
    assert!(should_run_portrait_retouch(PhotoCategory::Portrait, true));
    assert!(!should_run_portrait_retouch(PhotoCategory::Portrait, false));
    assert!(!should_run_portrait_retouch(PhotoCategory::NonPortrait, true));
    assert_eq!(reclassification_invalidation(7).asset_id, 7);
}

#[test]
fn promoting_a_reference_moves_to_the_next_revision() {
    let inv = promotion_invalidation(3, 41);
    assert_eq!(inv.previous_revision, 41);
    assert_eq!(inv.next_revision, 42);
    assert_eq!(promotion_invalidation(3, u64::MAX).next_revision, u64::MAX);
}

#[test]
fn binding_needs_the_selected_photo_in_the_set() {
    assert!(group_binding_for(1, 2, Some(&[5, 6]), 6).is_ok());
    assert!(matches!(group_binding_for(1, 2, Some(&[5]), 6), Err(ReferenceStoreError::SelectedAssetOutsideSet { reference_set_id: 2, asset_id: 6 })));
    assert!(matches!(group_binding_for(1, 2, None, 6), Err(ReferenceStoreError::ReferenceSetNotFound(2))));
}

#[test]
fn bracket_scan_takes_longest_windows_without_overlap() {
    let mut fits = vec![(false, false, false, false); 8];
    fits[0] = (false, false, true, true);
    fits[2] = (false, false, false, true);
    fits[5] = (false, false, false, true);
    assert_eq!(find_bracket_windows(&fits), vec![(0, 5), (5, 3)]);
    assert_eq!(find_bracket_windows(&vec![(true, true, true, true); 2]), vec![]);
}

#[test]
fn bracket_sources_and_standard_frames_keep_group_order() {
    let (sources, standard) = split_bracket_sources(&[1, 2, 3, 4, 5], &[4, 2]);
    assert_eq!(sources, vec![2, 4]);
    assert_eq!(standard, vec![1, 3, 5]);
}
