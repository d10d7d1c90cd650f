use photo_core::classification::SceneTag;
use photo_core::culling::{
    group_evidence_status, AssetEvidenceFound,
    build_moment_quick_cull_plan, protect_exposure_bracket_members, CullingDecision, CullingEvidence, CullingReason,
};

/// A scored recommendation as the ranking produces it.
struct Scored {
    asset_id: u128,
    quality_score: f32,
    decision: CullingDecision,
    group_rank: usize,
    reasons: Vec<CullingReason>,
    people: bool,
    duplicate_similarity: Option<f32>,
    scene_tags: Vec<SceneTag>,
}

fn recommendation(
    asset_id: u128,
    quality_score: f32,
    decision: CullingDecision,
    group_rank: usize,
    reasons: Vec<CullingReason>,
    people: bool,
) -> Scored {
    let duplicate_similarity = if reasons.contains(&CullingReason::NearDuplicate) { Some(0.995) } else { None };
    Scored {
        asset_id,
        quality_score,
        decision,
        group_rank,
        reasons,
        people,
        duplicate_similarity,
        scene_tags: if people { Vec::new() } else { vec![SceneTag::Landscape] },
    }
}

/// The order key of a quality score: keys order as `f32::total_cmp` orders scores.
fn quality_key(score: f32) -> i64 {
    let bits = score.to_bits() as i32;
    (bits ^ ((((bits >> 31) as u32) >> 1) as i32)) as i64
}

/// The library's view of scored recommendations: the keep threshold and the
/// duplicate gap to the first-ranked frame are measured here.
fn evidence(scored: Vec<Scored>) -> Vec<CullingEvidence> {
    let leader = scored.iter().min_by_key(|item| item.group_rank).map(|item| item.quality_score);
    scored
        .into_iter()
        .map(|item| CullingEvidence {
            asset_id: item.asset_id,
            decision: item.decision,
            group_rank: item.group_rank,
            quality_key: quality_key(item.quality_score),
            portrait_counts: if item.people { Some((1, 1)) } else { None },
            scene_tags: item.scene_tags,
            reasons: item.reasons,
            keep_quality: item.quality_score >= 0.85,
            material_duplicate: item.duplicate_similarity.is_some_and(|value| value >= 0.985)
                && leader.is_some_and(|leader| leader - item.quality_score >= 0.08),
        })
        .collect()
}

#[test]
fn quick_cull_rejects_only_clear_non_people_near_duplicates() {
    let group_id = 0x100;
    let best = 0x101;
    let duplicate = 0x102;
    let alternate = 0x103;
    let recs = evidence(vec![
        recommendation(best, 0.95, CullingDecision::Keep, 1, vec![CullingReason::StrongTechnicalCandidate], false),
        recommendation(duplicate, 0.82, CullingDecision::Review, 2, vec![CullingReason::NearDuplicate], false),
        recommendation(alternate, 0.91, CullingDecision::Keep, 3, vec![CullingReason::StrongTechnicalCandidate], false),
    ]);
    let plan = build_moment_quick_cull_plan(group_id, &recs, &[], false, true, true).unwrap();

    assert_eq!(plan.primary_asset_id, best);
    assert_eq!(plan.keep_asset_ids, vec![best]);
    assert_eq!(plan.reject_asset_ids, vec![duplicate]);
    assert_eq!(plan.review_asset_ids, vec![alternate]);
    assert!(!plan.contains_people);
    assert!(plan.scene_consistent);
    assert_eq!(plan.shared_scene_tags, vec![SceneTag::Landscape]);
}

#[test]
fn quick_cull_keeps_scene_changes_and_weaker_similarity_for_review() {
    let group_id = 0x200;
    let best = 0x201;
    let changed_scene = 0x202;
    let weak_match = 0x203;
    let mut changed = recommendation(changed_scene, 0.78, CullingDecision::Review, 2, vec![CullingReason::NearDuplicate], false);
    changed.scene_tags = vec![SceneTag::Architecture];
    let mut weak = recommendation(weak_match, 0.76, CullingDecision::Review, 3, vec![CullingReason::NearDuplicate], false);
    weak.duplicate_similarity = Some(0.982);
    let recs = evidence(vec![
        recommendation(best, 0.96, CullingDecision::Keep, 1, vec![CullingReason::StrongTechnicalCandidate], false),
        changed,
        weak,
    ]);
    let plan = build_moment_quick_cull_plan(group_id, &recs, &[], false, true, true).unwrap();

    assert!(plan.reject_asset_ids.is_empty());
    assert_eq!(plan.review_asset_ids, vec![changed_scene, weak_match]);
    assert!(!plan.scene_consistent);
}

#[test]
fn quick_cull_preserves_all_people_alternates_for_review() {
    let group_id = 0x300;
    let best = 0x301;
    let duplicate = 0x302;
    let recs = evidence(vec![
        recommendation(best, 0.96, CullingDecision::Keep, 1, vec![CullingReason::StrongTechnicalCandidate], true),
        recommendation(duplicate, 0.70, CullingDecision::Review, 2, vec![CullingReason::NearDuplicate], true),
    ]);
    let plan = build_moment_quick_cull_plan(group_id, &recs, &[], false, true, true).unwrap();

    assert!(plan.contains_people);
    assert!(plan.people_evidence_complete);
    assert!(plan.reject_asset_ids.is_empty());
    assert_eq!(plan.review_asset_ids, vec![duplicate]);
}

#[test]
fn quick_cull_preserves_duplicates_when_people_evidence_is_incomplete() {
    let group_id = 0x400;
    let best = 0x401;
    let duplicate = 0x402;
    let recs = evidence(vec![
        recommendation(best, 0.96, CullingDecision::Keep, 1, vec![CullingReason::StrongTechnicalCandidate], false),
        recommendation(duplicate, 0.70, CullingDecision::Review, 2, vec![CullingReason::NearDuplicate], false),
    ]);
    let plan = build_moment_quick_cull_plan(group_id, &recs, &[], false, false, false).unwrap();

    assert!(!plan.people_evidence_complete);
    assert!(!plan.scene_evidence_complete);
    assert!(plan.reject_asset_ids.is_empty());
    assert_eq!(plan.review_asset_ids, vec![duplicate]);
}

#[test]
fn quick_cull_blocks_pending_and_bracket_groups() {
    let group_id = 0x500;
    let best = 0x501;
    let alternate = 0x502;
    let recs = evidence(vec![
        recommendation(best, 0.95, CullingDecision::Keep, 1, vec![CullingReason::StrongTechnicalCandidate], false),
        recommendation(alternate, 0.80, CullingDecision::Review, 2, vec![CullingReason::NearDuplicate], false),
    ]);

    assert!(build_moment_quick_cull_plan(group_id, &recs, &[0x5ff], false, true, true).is_none());
    assert!(build_moment_quick_cull_plan(group_id, &recs, &[], true, true, true).is_none());
}

#[test]
fn quick_cull_orders_frames_by_rank_and_needs_a_kept_first_frame() {
    let best = 0x601;
    let second = 0x602;
    let third = 0x603;
    let recs = evidence(vec![
        recommendation(third, 0.70, CullingDecision::Review, 3, vec![], false),
        recommendation(best, 0.95, CullingDecision::Keep, 1, vec![], false),
        recommendation(second, 0.72, CullingDecision::Review, 2, vec![], false),
    ]);
    let plan = build_moment_quick_cull_plan(0x600, &recs, &[], false, true, true).unwrap();
    assert_eq!(plan.primary_asset_id, best);
    assert_eq!(plan.review_asset_ids, vec![second, third]);

    let not_kept = evidence(vec![
        recommendation(best, 0.80, CullingDecision::Review, 1, vec![], false),
        recommendation(second, 0.72, CullingDecision::Review, 2, vec![], false),
    ]);
    assert!(build_moment_quick_cull_plan(0x600, &not_kept, &[], false, true, true).is_none());

    let single = evidence(vec![recommendation(best, 0.95, CullingDecision::Keep, 1, vec![], false)]);
    assert!(build_moment_quick_cull_plan(0x600, &single, &[], false, true, true).is_none());
}

#[test]
fn exposure_bracket_members_are_never_rejected_or_marked_duplicates() {
    let member = 0x701;
    let strong_member = 0x702;
    let outsider = 0x703;
    let mut recs = evidence(vec![
        recommendation(
            member,
            0.40,
            CullingDecision::RejectSuggestion,
            3,
            vec![CullingReason::LowSharpness, CullingReason::NearDuplicate, CullingReason::LowTechnicalQuality],
            false,
        ),
        recommendation(strong_member, 0.90, CullingDecision::Review, 2, vec![CullingReason::NearDuplicate], false),
        recommendation(outsider, 0.30, CullingDecision::RejectSuggestion, 1, vec![CullingReason::LowTechnicalQuality], false),
    ]);
    protect_exposure_bracket_members(&mut recs, &[member, strong_member]);

    assert_eq!(recs[0].decision, CullingDecision::Review);
    assert_eq!(recs[0].reasons, vec![CullingReason::LowSharpness, CullingReason::ExposureBracketMember]);
    assert_eq!(recs[1].decision, CullingDecision::Keep);
    assert_eq!(recs[1].reasons, vec![CullingReason::ExposureBracketMember]);
    assert_eq!(recs[2].decision, CullingDecision::RejectSuggestion);
    assert_eq!(recs[2].reasons, vec![CullingReason::LowTechnicalQuality]);
}

#[test]
fn pending_photos_and_evidence_completeness_are_tracked_in_group_order() {
    let found = vec![
        AssetEvidenceFound { asset_id: 1, has_quality_score: true, has_segmentation: true },
        AssetEvidenceFound { asset_id: 2, has_quality_score: false, has_segmentation: false },
        AssetEvidenceFound { asset_id: 3, has_quality_score: false, has_segmentation: false },
    ];
    let status = group_evidence_status(&found);
    assert_eq!(status.pending_asset_ids, vec![2, 3]);
    // A photo still waiting for its score does not make the evidence incomplete.
    assert!(status.people_evidence_complete);
    assert!(status.scene_evidence_complete);
    let missing = vec![
        AssetEvidenceFound { asset_id: 1, has_quality_score: true, has_segmentation: false },
        AssetEvidenceFound { asset_id: 2, has_quality_score: true, has_segmentation: true },
    ];
    let status = group_evidence_status(&missing);
    assert!(status.pending_asset_ids.is_empty());
    assert!(!status.people_evidence_complete);
    assert!(!status.scene_evidence_complete);
}
