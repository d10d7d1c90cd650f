use photo_core::grouping::{GroupingBasis, PhotoGroup, PhotoGroupKind};
use photo_core::reference::{
    plan_group_references, ReferenceBatchError, ReferenceCandidateSource, ReferenceReadinessPlan,
    ReferenceReadinessStatus,
};

const G1: u128 = 0x61;
const G2: u128 = 0x62;
const A1: u128 = 0xa1;
const A2: u128 = 0xa2;
const A3: u128 = 0xa3;

fn group(id: u128, asset_ids: Vec<u128>) -> PhotoGroup {
    PhotoGroup { id, kind: PhotoGroupKind::Moment, basis: GroupingBasis::Time, asset_ids, manual_locked: false }
}

fn plan(group_id: u128, status: ReferenceReadinessStatus, suggested: Option<u128>) -> ReferenceReadinessPlan {
    ReferenceReadinessPlan {
        group_id,
        status,
        suggested_asset_id: suggested,
        candidate_source: Some(ReferenceCandidateSource::AiKeep),
        candidate_asset_id: suggested,
        candidate_scene_tags: Vec::new(),
        contains_people: false,
        pending_asset_ids: Vec::new(),
        excluded_asset_ids: Vec::new(),
        eligible_candidate_ids: suggested.into_iter().collect(),
    }
}

fn batch() -> Vec<PhotoGroup> {
    vec![group(G1, vec![A1, A2]), group(G2, vec![A3])]
}

#[test]
fn ready_groups_take_their_suggested_references_in_order() {
    let requests = vec![(G2, A3), (G1, A1)];
    let readiness = vec![
        plan(G2, ReferenceReadinessStatus::Ready, Some(A3)),
        plan(G1, ReferenceReadinessStatus::Ready, Some(A1)),
    ];
    assert_eq!(plan_group_references(&requests, &batch(), &vec![], &readiness).ok(), Some(requests.clone()));
}

#[test]
fn batch_reference_setup_names_the_first_failing_request() {
    let ready1 = || plan(G1, ReferenceReadinessStatus::Ready, Some(A1));
    let ready2 = || plan(G2, ReferenceReadinessStatus::Ready, Some(A3));
    assert_eq!(plan_group_references(&vec![], &batch(), &vec![], &vec![]).err(), Some(ReferenceBatchError::NoGroupsSelected));
    assert_eq!(
        plan_group_references(&vec![(G1, A1), (G1, A1)], &batch(), &vec![], &vec![ready1(), ready1()]).err(),
        Some(ReferenceBatchError::DuplicateGroup(G1))
    );
    assert_eq!(
        plan_group_references(&vec![(0x69, A1)], &batch(), &vec![], &vec![ready1()]).err(),
        Some(ReferenceBatchError::GroupOutsideBatch(0x69))
    );
    assert_eq!(
        plan_group_references(&vec![(G1, A3)], &batch(), &vec![], &vec![ready1()]).err(),
        Some(ReferenceBatchError::AssetOutsideGroup { group_id: G1, asset_id: A3 })
    );
    assert_eq!(
        plan_group_references(&vec![(G2, A3), (G1, A1)], &batch(), &vec![G1], &vec![ready2(), ready1()]).err(),
        Some(ReferenceBatchError::AlreadyBound(G1))
    );
    assert_eq!(
        plan_group_references(&vec![(G1, A1)], &batch(), &vec![], &vec![plan(G1, ReferenceReadinessStatus::HdrMergeFirst, None)]).err(),
        Some(ReferenceBatchError::HdrMergeFirst(G1))
    );
    assert_eq!(
        plan_group_references(&vec![(G1, A1)], &batch(), &vec![], &vec![plan(G1, ReferenceReadinessStatus::NeedsCullReview, None)]).err(),
        Some(ReferenceBatchError::NeedsCullReview(G1))
    );
    assert_eq!(
        plan_group_references(&vec![(G1, A2)], &batch(), &vec![], &vec![ready1()]).err(),
        Some(ReferenceBatchError::SuggestionChanged(G1))
    );
}
