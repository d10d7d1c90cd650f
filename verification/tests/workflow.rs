use photo_core::batch::{Batch, JobStatus};
use photo_core::culling::CullingDecision;
use photo_core::culling_store::CullingUserDecision;
use photo_core::workflow::{
    batch_workflow_facts, recipe_review_preflight, recipe_review_signal, GroupDelivery, GroupWorkflowObservation,
    RecipeReviewAssetFacts, RecipeReviewGroupFacts, RecipeReviewPreflightError, RecipeReviewSignal,
};

fn facts(asset_id: u128, has_recipe: bool) -> RecipeReviewAssetFacts {
    RecipeReviewAssetFacts {
        asset_id,
        has_recipe,
        recipe_confirmed: false,
        has_exception: false,
        user_decision: None,
        ai_decision: Some(CullingDecision::Keep),
        culling_pending: false,
    }
}

#[test]
fn review_signal_waits_for_a_recipe_and_for_evidence() {
    let none = recipe_review_signal(&RecipeReviewAssetFacts { has_exception: true, ..facts(1, false) });
    assert_eq!(
        none,
        RecipeReviewSignal { confirmed: false, has_exception: false, user_decision: None, ai_decision: None, evidence_pending: true }
    );
    let suggested = recipe_review_signal(&facts(1, true));
    assert!(!suggested.evidence_pending);
    assert_eq!(suggested.ai_decision, Some(CullingDecision::Keep));
    let scoring = recipe_review_signal(&RecipeReviewAssetFacts { culling_pending: true, ..facts(1, true) });
    assert!(scoring.evidence_pending);
    let decided = recipe_review_signal(&RecipeReviewAssetFacts {
        culling_pending: true,
        user_decision: Some(CullingUserDecision::Keep),
        ..facts(1, true)
    });
    assert!(!decided.evidence_pending);
    let confirmed = recipe_review_signal(&RecipeReviewAssetFacts { ai_decision: None, recipe_confirmed: true, ..facts(1, true) });
    assert!(!confirmed.evidence_pending);
    assert!(confirmed.confirmed);
}

#[test]
fn review_preflight_needs_a_group_and_a_usable_reference() {
    let mut group = RecipeReviewGroupFacts {
        group_id: 7,
        group_found: false,
        has_reference: false,
        reference_rejected: true,
        assets: vec![facts(1, true), facts(2, false)],
    };
    assert!(matches!(recipe_review_preflight(&group), Err(RecipeReviewPreflightError::GroupNotFound(7))));
    group.group_found = true;
    assert!(matches!(recipe_review_preflight(&group), Err(RecipeReviewPreflightError::NoReference(7))));
    group.has_reference = true;
    assert!(matches!(recipe_review_preflight(&group), Err(RecipeReviewPreflightError::ReferenceRejected(7))));
    group.reference_rejected = false;
    let signals = recipe_review_preflight(&group).ok().unwrap();
    assert_eq!(signals.len(), 2);
    assert_eq!(signals[0].0, 1);
    assert!(!signals[0].1.evidence_pending);
    assert_eq!(signals[1].0, 2);
    assert!(signals[1].1.evidence_pending);
}

fn observation() -> GroupWorkflowObservation {
    GroupWorkflowObservation {
        pending_reviewed: vec![],
        recommendations: vec![],
        has_exposure_brackets: false,
        hdr_merge_completed: false,
        editable_empty: false,
        has_reference: true,
        reference_rejected: false,
        review_attention: 0,
        review_pending: false,
        delivery: GroupDelivery::Sidecars { conflicts: 0, missing: 0 },
    }
}

#[test]
fn workflow_counts_add_up_over_jobs_and_groups() {
    let mut batch = Batch::new("trip".to_string(), vec!["a.cr3".to_string(), "b.cr3".to_string(), "c.cr3".to_string()]);
    batch.items[0].status = JobStatus::Failed;
    batch.items[1].status = JobStatus::Done;
    let groups = vec![
        // Current: everything resolved, one undecided pending photo and one undecided suggestion to look at.
        GroupWorkflowObservation {
            pending_reviewed: vec![false, true],
            recommendations: vec![(false, CullingDecision::Review), (false, CullingDecision::Keep), (true, CullingDecision::RejectSuggestion)],
            ..observation()
        },
        // No reference yet.
        GroupWorkflowObservation { has_reference: false, ..observation() },
        // Only brackets, not merged yet.
        GroupWorkflowObservation { editable_empty: true, has_exposure_brackets: true, ..observation() },
        // Reviewed edits with conflicts and missing sidecars.
        GroupWorkflowObservation {
            review_attention: 2,
            review_pending: true,
            delivery: GroupDelivery::Sidecars { conflicts: 1, missing: 3 },
            ..observation()
        },
        // Recipes could not be resolved.
        GroupWorkflowObservation { delivery: GroupDelivery::Unresolved, ..observation() },
    ];
    let f = batch_workflow_facts(&batch, &groups);
    assert_eq!(f.preparation_active, 1);
    assert_eq!(f.preparation_failed, 1);
    assert_eq!(f.groups_total, 5);
    assert_eq!(f.cull_pending, 1);
    assert_eq!(f.cull_attention, 1);
    assert_eq!(f.reference_attention_groups, 1);
    assert_eq!(f.lightroom_hdr_merge_groups, 1);
    assert_eq!(f.review_attention, 2);
    assert_eq!(f.review_pending_groups, 1);
    assert_eq!(f.lightroom_conflict_groups, 1);
    assert_eq!(f.lightroom_missing_sidecars, 3);
    assert_eq!(f.lightroom_unresolved_groups, 2);
    assert_eq!(f.lightroom_current_groups, 1);
}
