use photo_core::classification::SceneTag;
use photo_core::culling::{CullingDecision, CullingEvidence};
use photo_core::culling_store::{CullingReview, CullingUserDecision};
use photo_core::reference::{
    build_reference_readiness_plan, build_style_sync_group_context, MISSING_QUALITY_KEY, build_style_sync_preflight,
    style_sync_compatibility, ReferenceCandidateSource, ReferenceReadinessStatus,
    StyleSyncCompatibility, StyleSyncGroupContext, StyleSyncReason,
};

/// The order key of a quality score: keys order as `f32::total_cmp` orders scores.
fn quality_key(score: f32) -> i64 {
    let bits = score.to_bits() as i32;
    (bits ^ ((((bits >> 31) as u32) >> 1) as i32)) as i64
}

fn readiness_candidate(asset_id: u128, decision: CullingDecision, quality_score: f32, group_rank: usize, scene_tags: Vec<SceneTag>) -> CullingEvidence {
    CullingEvidence {
        asset_id,
        decision,
        group_rank,
        quality_key: quality_key(quality_score),
        portrait_counts: None,
        scene_tags,
        reasons: Vec::new(),
        keep_quality: quality_score >= 0.85,
        material_duplicate: false,
    }
}

fn context(contains_people: bool, scene_tags: Vec<SceneTag>, evidence_complete: bool, pending_asset_ids: Vec<u128>) -> StyleSyncGroupContext {
    StyleSyncGroupContext { group_id: 0x51, contains_people, scene_tags, evidence_complete, pending_asset_ids }
}

#[test]
fn scenic_ai_keep_is_ready_when_cull_evidence_is_complete() {
    let group_id = 0x10;
    let landscape = 0x11;
    let alternate = 0x12;
    let plan = build_reference_readiness_plan(
        group_id,
        &vec![landscape, alternate],
        &vec![
            readiness_candidate(landscape, CullingDecision::Keep, 0.93, 1, vec![SceneTag::Landscape]),
            readiness_candidate(alternate, CullingDecision::Review, 0.82, 2, vec![SceneTag::Landscape]),
        ],
        &vec![],
        false,
        &vec![],
    );

    assert_eq!(plan.status, ReferenceReadinessStatus::Ready);
    assert_eq!(plan.suggested_asset_id, Some(landscape));
    assert_eq!(plan.candidate_source, Some(ReferenceCandidateSource::AiKeep));
    assert_eq!(plan.candidate_scene_tags, vec![SceneTag::Landscape]);
    assert_eq!(plan.eligible_candidate_ids, vec![landscape, alternate]);
}

#[test]
fn ai_reference_waits_for_pending_cull_evidence() {
    let group_id = 0x20;
    let first = 0x21;
    let pending = 0x22;
    let plan = build_reference_readiness_plan(
        group_id,
        &vec![first, pending],
        &vec![readiness_candidate(first, CullingDecision::Keep, 0.91, 1, vec![SceneTag::Architecture])],
        &vec![pending],
        false,
        &vec![],
    );

    assert_eq!(plan.status, ReferenceReadinessStatus::NeedsCullReview);
    assert_eq!(plan.suggested_asset_id, None);
    assert_eq!(plan.candidate_source, Some(ReferenceCandidateSource::AiKeep));
    assert_eq!(plan.pending_asset_ids, vec![pending]);
}

#[test]
fn photographer_keep_can_advance_a_pending_group() {
    let group_id = 0x30;
    let analyzed = 0x31;
    let photographer_keep = 0x32;
    let recommendations = vec![readiness_candidate(analyzed, CullingDecision::Keep, 0.97, 1, vec![SceneTag::Landscape])];
    let plan = build_reference_readiness_plan(
        group_id,
        &vec![analyzed, photographer_keep],
        &recommendations,
        &vec![photographer_keep],
        false,
        &vec![CullingReview { asset_id: photographer_keep, decision: CullingUserDecision::Keep }],
    );

    assert_eq!(plan.status, ReferenceReadinessStatus::Ready);
    assert_eq!(plan.suggested_asset_id, Some(photographer_keep));
    assert_eq!(plan.candidate_source, Some(ReferenceCandidateSource::PhotographerKeep));
    // The leading candidate has no recommendation, so it carries no quality score.
    assert_eq!(plan.candidate_asset_id, Some(photographer_keep));
    assert!(recommendations.iter().all(|r| r.asset_id != photographer_keep));
}

#[test]
fn hdr_bracket_blocks_batch_reference_even_with_photographer_keep() {
    let group_id = 0x40;
    let first = 0x41;
    let plan = build_reference_readiness_plan(
        group_id,
        &vec![first],
        &vec![readiness_candidate(first, CullingDecision::Keep, 0.95, 1, vec![SceneTag::Landscape])],
        &vec![],
        true,
        &vec![CullingReview { asset_id: first, decision: CullingUserDecision::Keep }],
    );

    assert_eq!(plan.status, ReferenceReadinessStatus::HdrMergeFirst);
    assert_eq!(plan.suggested_asset_id, None);
}

#[test]
fn rejected_photos_are_excluded_and_ranking_prefers_quality() {
    let plan = build_reference_readiness_plan(
        0x60,
        &vec![0x61, 0x62, 0x63, 0x64],
        &vec![
            readiness_candidate(0x61, CullingDecision::Keep, 0.70, 2, vec![]),
            readiness_candidate(0x62, CullingDecision::Keep, 0.90, 1, vec![SceneTag::Food]),
            readiness_candidate(0x63, CullingDecision::RejectSuggestion, 0.99, 3, vec![]),
            readiness_candidate(0x64, CullingDecision::Keep, 0.95, 4, vec![]),
        ],
        &vec![],
        false,
        &vec![CullingReview { asset_id: 0x64, decision: CullingUserDecision::Reject }],
    );
    assert_eq!(plan.eligible_candidate_ids, vec![0x62, 0x61]);
    assert_eq!(plan.excluded_asset_ids, vec![0x63, 0x64]);
    assert_eq!(plan.suggested_asset_id, Some(0x62));
    assert_eq!(plan.candidate_scene_tags, vec![SceneTag::Food]);
    assert!(!plan.contains_people);
}

#[test]
fn landscape_style_sync_recommends_shared_scene() {
    let source = context(false, vec![SceneTag::Landscape], true, Vec::new());
    let target = context(false, vec![SceneTag::Landscape, SceneTag::Night], true, Vec::new());
    assert_eq!(style_sync_compatibility(&source, &target), (StyleSyncCompatibility::Recommended, StyleSyncReason::SharedScene));
}

#[test]
fn people_style_sync_recommends_people_groups() {
    let source = context(true, vec![SceneTag::Architecture], true, Vec::new());
    let target = context(true, vec![SceneTag::Landscape], true, Vec::new());
    assert_eq!(style_sync_compatibility(&source, &target), (StyleSyncCompatibility::Recommended, StyleSyncReason::PeopleMatch));
}

#[test]
fn portrait_to_landscape_style_sync_requires_review() {
    let source = context(true, vec![SceneTag::Landscape], true, Vec::new());
    let target = context(false, vec![SceneTag::Landscape], true, Vec::new());
    assert_eq!(style_sync_compatibility(&source, &target), (StyleSyncCompatibility::Review, StyleSyncReason::PeopleSceneMismatch));
}

#[test]
fn unrelated_scenic_style_sync_requires_review() {
    let source = context(false, vec![SceneTag::Landscape], true, Vec::new());
    let target = context(false, vec![SceneTag::Food], true, Vec::new());
    assert_eq!(style_sync_compatibility(&source, &target), (StyleSyncCompatibility::Review, StyleSyncReason::SceneMismatch));
}

#[test]
fn pending_style_evidence_never_auto_recommends() {
    let source = context(false, vec![SceneTag::Night], false, vec![0x99]);
    let target = context(false, vec![SceneTag::Night], true, Vec::new());
    assert_eq!(style_sync_compatibility(&source, &target), (StyleSyncCompatibility::Review, StyleSyncReason::EvidenceIncomplete));
}

#[test]
fn style_context_ignores_rejected_photos() {
    let kept = 0x71;
    let rejected = 0x72;
    let context = build_style_sync_group_context(
        0x70,
        &vec![
            readiness_candidate(kept, CullingDecision::Keep, 0.95, 1, vec![SceneTag::Landscape]),
            readiness_candidate(rejected, CullingDecision::Review, 0.80, 2, vec![SceneTag::Food]),
        ],
        &vec![],
        &vec![CullingReview { asset_id: rejected, decision: CullingUserDecision::Reject }],
    );

    assert!(context.evidence_complete);
    assert_eq!(context.scene_tags, vec![SceneTag::Landscape]);
}

#[test]
fn style_context_needs_evidence_and_no_open_pending() {
    let mut people = readiness_candidate(0x81, CullingDecision::Keep, 0.9, 1, vec![]);
    people.portrait_counts = Some((1, 0));
    let context = build_style_sync_group_context(
        0x80,
        &vec![people, readiness_candidate(0x82, CullingDecision::Keep, 0.8, 2, vec![SceneTag::Night, SceneTag::Night])],
        &vec![0x83, 0x84],
        &vec![CullingReview { asset_id: 0x84, decision: CullingUserDecision::Reject }],
    );
    assert!(context.contains_people);
    assert_eq!(context.scene_tags, vec![SceneTag::Night]);
    assert_eq!(context.pending_asset_ids, vec![0x83]);
    assert!(!context.evidence_complete);
    let bare = build_style_sync_group_context(0x85, &vec![readiness_candidate(0x86, CullingDecision::Keep, 0.8, 1, vec![])], &vec![], &vec![]);
    assert!(!bare.evidence_complete);
}

#[test]
fn preflight_checks_each_target_in_order() {
    let source = context(false, vec![SceneTag::Landscape], true, Vec::new());
    let mut a = context(false, vec![SceneTag::Landscape], true, Vec::new());
    a.group_id = 0xa;
    let mut b = context(true, vec![], true, Vec::new());
    b.group_id = 0xb;
    let preflight = build_style_sync_preflight(source, vec![a, b]);
    assert_eq!(preflight.targets.len(), 2);
    assert_eq!(preflight.targets[0].target_group_id, 0xa);
    assert_eq!(preflight.targets[0].compatibility, StyleSyncCompatibility::Recommended);
    assert_eq!(preflight.targets[1].target_group_id, 0xb);
    assert_eq!(preflight.targets[1].reason, StyleSyncReason::PeopleSceneMismatch);
}

#[test]
fn a_photo_without_recommendation_ranks_by_the_score_minus_one() {
    assert_eq!(MISSING_QUALITY_KEY, quality_key(-1.0));
    assert!(MISSING_QUALITY_KEY < quality_key(0.0));
    assert!(MISSING_QUALITY_KEY > quality_key(-1.5));
}
