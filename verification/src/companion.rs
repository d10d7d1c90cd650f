//! The mobile companion: a desktop batch is exported as a snapshot, the
//! companion hydrates a project from it, and the photographer's decisions
//! made there come back as a patch of changes only. A patch is applied only
//! when it is about the same snapshot and batch, names known assets and
//! groups at most once each, keeps every reference inside its group, never
//! selects a rejected photo as a reference, and nothing it touches changed on
//! the workstation since the snapshot.
//!
//! The snapshot is held here by what these rules read: culling results by the
//! photos they speak of, reference sets by their id and photos.

use vstd::prelude::*;
use crate::batch::{Batch, BatchItem, BatchStage, JobStatus};
use crate::catalog::CatalogError;
use crate::culling_store::{latest_decision, latest_decision_in, CullingReview, CullingReviewStoreError, CullingUserDecision};
use crate::grouping::PhotoGroup;
use crate::ids::{fresh_id, id_listed, id_text, id_text_of};
use crate::metadata_store::{AssetMetadataEvidence, RawMetadataStoreError};
use crate::companion_store::CompanionSnapshotStoreError;
use crate::path::concat;
use crate::preview::{PreviewArtifact, PreviewSource, PreviewStoreError};
use crate::raw::RawAsset;
use crate::reference_store::{GroupReferenceBinding, ReferenceStoreError};
use crate::text::{chars_of, string_of};

verus! {

pub const COMPANION_SNAPSHOT_SCHEMA_VERSION: u32 = 1;

/// An asset as the companion sees it: no source path leaves the workstation.
pub struct CompanionAsset {
    pub id: u128,
    pub filename: String,
    pub extension: String,
    pub camera_id: Option<String>,
    pub capture_time_ms: Option<i64>,
    pub file_time_ms: Option<i64>,
    pub sequence_number: Option<u64>,
}

impl CompanionAsset {
    /// The companion view of a catalogued asset.
    pub fn from_raw(asset: &RawAsset) -> (res: Self)
        ensures
            res.id == asset.id,
            res.filename@ == asset.filename@,
            res.extension@ == asset.extension@,
            res.camera_id == asset.camera_id,
            res.capture_time_ms == asset.capture_time_ms,
            res.file_time_ms == asset.file_time_ms,
            res.sequence_number == asset.sequence_number,
    {
        CompanionAsset {
            id: asset.id,
            filename: asset.filename.clone(),
            extension: asset.extension.clone(),
            camera_id: match &asset.camera_id {
                Some(c) => Some(c.clone()),
                None => None,
            },
            capture_time_ms: asset.capture_time_ms,
            file_time_ms: asset.file_time_ms,
            sequence_number: asset.sequence_number,
        }
    }
}

pub struct CompanionPreviewIndex {
    pub asset_id: u128,
    pub transport_name: String,
    pub revision: String,
    pub mime_type: String,
    pub width: u32,
    pub height: u32,
    pub source: PreviewSource,
}

pub open spec fn jpg_suffix() -> Seq<char> {
    seq!['.', 'j', 'p', 'g']
}

impl CompanionPreviewIndex {
    /// The index entry of a preview: it travels as `<asset id>.jpg`.
    pub fn from_preview(preview: PreviewArtifact) -> (res: Self)
        ensures
            res.asset_id == preview.asset_id,
            res.transport_name@ == id_text_of(preview.asset_id) + jpg_suffix(),
            res.revision == preview.revision,
            res.mime_type == preview.mime_type,
            res.width == preview.width,
            res.height == preview.height,
            res.source == preview.source,
    {
        let suffix = vec!['.', 'j', 'p', 'g'];
        assert(suffix@ =~= jpg_suffix());
        let name = concat(&chars_of(id_text(preview.asset_id).as_str()), &suffix);
        CompanionPreviewIndex {
            asset_id: preview.asset_id,
            transport_name: string_of(&name),
            revision: preview.revision,
            mime_type: preview.mime_type,
            width: preview.width,
            height: preview.height,
            source: preview.source,
        }
    }
}

/// The photos one group's culling result speaks of: its recommendations and
/// its pending photos.
pub struct CullingMembership {
    pub group_id: u128,
    pub asset_ids: Vec<u128>,
}

/// A group's reference binding with the id and photos of its reference set.
pub struct CompanionReferenceState {
    pub binding: GroupReferenceBinding,
    pub reference_set_id: u128,
    pub reference_photo_ids: Vec<u128>,
}

pub struct CompanionSnapshot {
    pub schema_version: u32,
    pub snapshot_id: u128,
    pub batch_id: u128,
    pub batch_name: String,
    pub assets: Vec<CompanionAsset>,
    pub groups: Vec<PhotoGroup>,
    pub culling: Vec<CullingMembership>,
    pub culling_reviews: Vec<CullingReview>,
    pub references: Vec<CompanionReferenceState>,
    pub metadata: Vec<AssetMetadataEvidence>,
    pub previews: Vec<CompanionPreviewIndex>,
}

#[derive(PartialEq, Eq, Structural, Clone, Copy, Debug)]
pub struct CompanionCullingChange {
    pub asset_id: u128,
    pub decision: Option<CullingUserDecision>,
}

#[derive(PartialEq, Eq, Structural, Clone, Copy, Debug)]
pub struct CompanionReferenceChange {
    pub group_id: u128,
    pub selected_reference_asset_id: Option<u128>,
}

pub struct CompanionDecisionPatch {
    pub schema_version: u32,
    pub base_snapshot_id: u128,
    pub batch_id: u128,
    pub culling_changes: Vec<CompanionCullingChange>,
    pub reference_changes: Vec<CompanionReferenceChange>,
}

#[derive(PartialEq, Eq, Structural, Clone, Copy, Debug)]
pub struct CompanionPatchApplyReport {
    pub culling_changes_applied: usize,
    pub reference_changes_applied: usize,
}

pub enum CompanionError {
    Store(String),
    Catalog(CatalogError),
    CullingEvidence(String),
    CullingReview(CullingReviewStoreError),
    Reference(ReferenceStoreError),
    Metadata(RawMetadataStoreError),
    Preview(PreviewStoreError),
    SnapshotStore(CompanionSnapshotStoreError),
    UnsupportedSchema(u32),
    SnapshotMismatch { expected: u128, actual: u128 },
    BatchMismatch { expected: u128, actual: u128 },
    UnknownAsset(u128),
    UnknownGroup(u128),
    ReferenceOutsideGroup { group_id: u128, asset_id: u128 },
    RejectedReference { group_id: u128, asset_id: u128 },
    ConcurrentCullingChange(u128),
    ConcurrentReferenceChange(u128),
    DuplicateCullingChange(u128),
    DuplicateReferenceChange(u128),
    SnapshotReplacementConflict { batch_id: u128, existing_snapshot_id: u128, incoming_snapshot_id: u128 },
    DuplicateSnapshotAsset(u128),
    DuplicateSnapshotGroup(u128),
    AssetIdentityMismatch { expected: u128, actual: u128 },
}

// ----- what a snapshot holds -----

pub open spec fn asset_ids_of(s: CompanionSnapshot) -> Seq<u128> {
    s.assets@.map_values(|a: CompanionAsset| a.id)
}

pub open spec fn group_ids_of(s: CompanionSnapshot) -> Seq<u128> {
    s.groups@.map_values(|g: PhotoGroup| g.id)
}

/// `id` occurs twice in `ids`.
pub open spec fn repeated(ids: Seq<u128>, id: u128) -> bool {
    exists|i: int, j: int| 0 <= i < j < ids.len() && ids[i] == id && ids[j] == id
}

pub open spec fn all_distinct(ids: Seq<u128>) -> bool {
    forall|i: int, j: int| 0 <= i < j < ids.len() ==> ids[i] != ids[j]
}

/// The members of the group `g` of the snapshot (its first group with that id).
pub open spec fn is_group_at(s: CompanionSnapshot, g: u128, i: int) -> bool {
    &&& 0 <= i < s.groups@.len()
    &&& s.groups@[i].id == g
    &&& forall|j: int| 0 <= j < i ==> #[trigger] s.groups@[j].id != g
}

pub open spec fn in_group(s: CompanionSnapshot, g: u128, a: u128) -> bool {
    exists|i: int| is_group_at(s, g, i) && s.groups@[i].asset_ids@.contains(a)
}

pub open spec fn known_group(s: CompanionSnapshot, g: u128) -> bool {
    group_ids_of(s).contains(g)
}

pub open spec fn known_asset(s: CompanionSnapshot, a: u128) -> bool {
    asset_ids_of(s).contains(a)
}

/// Everything a snapshot refers to is in it, once.
pub open spec fn snapshot_consistent(s: CompanionSnapshot) -> bool {
    &&& all_distinct(asset_ids_of(s))
    &&& all_distinct(group_ids_of(s))
    &&& forall|i: int, k: int| 0 <= i < s.groups@.len() && 0 <= k < s.groups@[i].asset_ids@.len()
        ==> known_asset(s, #[trigger] s.groups@[i].asset_ids@[k])
    &&& forall|i: int| 0 <= i < s.culling@.len() ==> known_group(s, (#[trigger] s.culling@[i]).group_id)
    &&& forall|i: int, k: int| 0 <= i < s.culling@.len() && 0 <= k < s.culling@[i].asset_ids@.len()
        ==> in_group(s, s.culling@[i].group_id, #[trigger] s.culling@[i].asset_ids@[k])
    &&& forall|i: int| 0 <= i < s.culling_reviews@.len() ==> known_asset(s, (#[trigger] s.culling_reviews@[i]).asset_id)
    &&& forall|i: int| 0 <= i < s.metadata@.len() ==> known_asset(s, (#[trigger] s.metadata@[i]).asset_id)
    &&& forall|i: int| 0 <= i < s.previews@.len() ==> known_asset(s, (#[trigger] s.previews@[i]).asset_id)
    &&& forall|i: int| 0 <= i < s.references@.len() ==> reference_consistent(s, #[trigger] s.references@[i])
}

pub open spec fn reference_consistent(s: CompanionSnapshot, r: CompanionReferenceState) -> bool {
    &&& known_group(s, r.binding.group_id)
    &&& in_group(s, r.binding.group_id, r.binding.selected_reference_asset_id)
    &&& r.reference_photo_ids@.contains(r.binding.selected_reference_asset_id)
    &&& r.reference_set_id == r.binding.reference_set_id
}

/// What a snapshot validation error says is true of the snapshot.
pub open spec fn snapshot_error_holds(s: CompanionSnapshot, e: CompanionError) -> bool {
    match e {
        CompanionError::DuplicateSnapshotAsset(a) => repeated(asset_ids_of(s), a),
        CompanionError::DuplicateSnapshotGroup(g) => repeated(group_ids_of(s), g),
        CompanionError::UnknownAsset(a) => !known_asset(s, a),
        CompanionError::UnknownGroup(g) => !known_group(s, g),
        CompanionError::ReferenceOutsideGroup { group_id, asset_id } => {
            ||| !in_group(s, group_id, asset_id)
            ||| exists|i: int| 0 <= i < s.references@.len() && (#[trigger] s.references@[i]).binding.group_id == group_id
                && s.references@[i].binding.selected_reference_asset_id == asset_id
                && !s.references@[i].reference_photo_ids@.contains(asset_id)
        },
        CompanionError::Reference(ReferenceStoreError::ReferenceSetNotFound(x)) =>
            exists|i: int| 0 <= i < s.references@.len() && (#[trigger] s.references@[i]).binding.reference_set_id == x
                && s.references@[i].reference_set_id != x,
        _ => false,
    }
}

fn asset_id_list(s: &CompanionSnapshot) -> (res: Vec<u128>)
    ensures
        res@ == asset_ids_of(*s),
{
    let mut out: Vec<u128> = Vec::new();
    let mut i: usize = 0;
    while i < s.assets.len()
        invariant
            i <= s.assets@.len(),
            out@ == asset_ids_of(*s).subrange(0, i as int),
        decreases s.assets@.len() - i,
    {
        out.push(s.assets[i].id);
        i += 1;
        assert(out@ =~= asset_ids_of(*s).subrange(0, i as int));
    }
    assert(asset_ids_of(*s).subrange(0, s.assets@.len() as int) =~= asset_ids_of(*s));
    out
}

/// The position of the first group with id `g`.
fn group_position(s: &CompanionSnapshot, g: u128) -> (res: Option<usize>)
    ensures
        match res {
            Some(i) => is_group_at(*s, g, i as int),
            None => !known_group(*s, g),
        },
{
    let mut i: usize = 0;
    while i < s.groups.len()
        invariant
            i <= s.groups@.len(),
            forall|j: int| 0 <= j < i ==> #[trigger] s.groups@[j].id != g,
        decreases s.groups@.len() - i,
    {
        if s.groups[i].id == g {
            return Some(i);
        }
        i += 1;
    }
    proof {
        if known_group(*s, g) {
            let k = choose|k: int| 0 <= k < group_ids_of(*s).len() && group_ids_of(*s)[k] == g;
            assert(s.groups@[k].id == g);
        }
    }
    None
}

proof fn lemma_group_at_unique(s: CompanionSnapshot, g: u128, i: int, j: int)
    requires
        is_group_at(s, g, i),
        is_group_at(s, g, j),
    ensures
        i == j,
{
    if i < j {
        assert(s.groups@[i].id != g);
    } else if j < i {
        assert(s.groups@[j].id != g);
    }
}

/// Whether `a` is a member of the group at position `gi`, which is the group `g`.
fn member_of(s: &CompanionSnapshot, gi: usize, g: u128, a: u128) -> (res: bool)
    requires
        is_group_at(*s, g, gi as int),
    ensures
        res == in_group(*s, g, a),
{
    let r = id_listed(s.groups[gi].asset_ids.as_slice(), a);
    proof {
        if in_group(*s, g, a) {
            let i = choose|i: int| is_group_at(*s, g, i) && s.groups@[i].asset_ids@.contains(a);
            lemma_group_at_unique(*s, g, i, gi as int);
        }
    }
    r
}

// ----- the first problem of a snapshot, in the order the checks run -----

/// The first of `n` checks, in order, that finds a problem.
pub open spec fn first_problem(n: int, check: spec_fn(int) -> Option<CompanionError>) -> Option<CompanionError>
    decreases n,
{
    if n <= 0 {
        None
    } else {
        match first_problem(n - 1, check) {
            Some(e) => Some(e),
            None => check(n - 1),
        }
    }
}

/// Once a problem is found among the first checks, it stays the first.
proof fn lemma_first_problem_stays(m: int, n: int, check: spec_fn(int) -> Option<CompanionError>)
    requires
        0 <= m <= n,
        first_problem(m, check) is Some,
    ensures
        first_problem(n, check) == first_problem(m, check),
    decreases n - m,
{
    if m < n {
        lemma_first_problem_stays(m, n - 1, check);
    }
}

pub open spec fn or_else(a: Option<CompanionError>, b: Option<CompanionError>) -> Option<CompanionError> {
    if a is Some { a } else { b }
}

/// `ids[i]` already occurred before position `i`.
pub open spec fn seen_before(ids: Seq<u128>, i: int) -> bool {
    exists|j: int| 0 <= j < i && ids[j] == ids[i]
}

pub open spec fn asset_checker(s: CompanionSnapshot) -> spec_fn(int) -> Option<CompanionError> {
    |i: int| if seen_before(asset_ids_of(s), i) {
        Some(CompanionError::DuplicateSnapshotAsset(asset_ids_of(s)[i]))
    } else {
        None
    }
}

pub open spec fn member_checker(s: CompanionSnapshot, gi: int) -> spec_fn(int) -> Option<CompanionError> {
    |k: int| if known_asset(s, s.groups@[gi].asset_ids@[k]) {
        None
    } else {
        Some(CompanionError::UnknownAsset(s.groups@[gi].asset_ids@[k]))
    }
}

/// A group: its id must be new, then every member a known asset.
pub open spec fn group_checker(s: CompanionSnapshot) -> spec_fn(int) -> Option<CompanionError> {
    |i: int| if seen_before(group_ids_of(s), i) {
        Some(CompanionError::DuplicateSnapshotGroup(group_ids_of(s)[i]))
    } else {
        first_problem(s.groups@[i].asset_ids@.len() as int, member_checker(s, i))
    }
}

pub open spec fn culling_member_checker(s: CompanionSnapshot, ci: int) -> spec_fn(int) -> Option<CompanionError> {
    |k: int| if in_group(s, s.culling@[ci].group_id, s.culling@[ci].asset_ids@[k]) {
        None
    } else {
        Some(CompanionError::ReferenceOutsideGroup {
            group_id: s.culling@[ci].group_id,
            asset_id: s.culling@[ci].asset_ids@[k],
        })
    }
}

/// A culling result: its group must be known, then every photo it speaks of in it.
pub open spec fn culling_checker(s: CompanionSnapshot) -> spec_fn(int) -> Option<CompanionError> {
    |i: int| if !known_group(s, s.culling@[i].group_id) {
        Some(CompanionError::UnknownGroup(s.culling@[i].group_id))
    } else {
        first_problem(s.culling@[i].asset_ids@.len() as int, culling_member_checker(s, i))
    }
}

pub open spec fn unknown_asset_check(s: CompanionSnapshot, a: u128) -> Option<CompanionError> {
    if known_asset(s, a) { None } else { Some(CompanionError::UnknownAsset(a)) }
}

pub open spec fn review_checker(s: CompanionSnapshot) -> spec_fn(int) -> Option<CompanionError> {
    |i: int| unknown_asset_check(s, s.culling_reviews@[i].asset_id)
}

pub open spec fn metadata_checker(s: CompanionSnapshot) -> spec_fn(int) -> Option<CompanionError> {
    |i: int| unknown_asset_check(s, s.metadata@[i].asset_id)
}

pub open spec fn preview_checker(s: CompanionSnapshot) -> spec_fn(int) -> Option<CompanionError> {
    |i: int| unknown_asset_check(s, s.previews@[i].asset_id)
}

/// A reference state: known group, selected photo in the group and in the
/// reference set, and the binding naming that set.
pub open spec fn reference_check(s: CompanionSnapshot, r: CompanionReferenceState) -> Option<CompanionError> {
    let g = r.binding.group_id;
    let a = r.binding.selected_reference_asset_id;
    if !known_group(s, g) {
        Some(CompanionError::UnknownGroup(g))
    } else if !in_group(s, g, a) || !r.reference_photo_ids@.contains(a) {
        Some(CompanionError::ReferenceOutsideGroup { group_id: g, asset_id: a })
    } else if r.reference_set_id != r.binding.reference_set_id {
        Some(CompanionError::Reference(ReferenceStoreError::ReferenceSetNotFound(r.binding.reference_set_id)))
    } else {
        None
    }
}

pub open spec fn reference_checker(s: CompanionSnapshot) -> spec_fn(int) -> Option<CompanionError> {
    |i: int| reference_check(s, s.references@[i])
}

/// The first problem of a snapshot: duplicate assets first, then each group
/// in turn (a repeated id, then an unknown member), then the culling
/// results, reviews, metadata, previews and reference states.
pub open spec fn snapshot_problem(s: CompanionSnapshot) -> Option<CompanionError> {
    or_else(first_problem(s.assets@.len() as int, asset_checker(s)),
    or_else(first_problem(s.groups@.len() as int, group_checker(s)),
    or_else(first_problem(s.culling@.len() as int, culling_checker(s)),
    or_else(first_problem(s.culling_reviews@.len() as int, review_checker(s)),
    or_else(first_problem(s.metadata@.len() as int, metadata_checker(s)),
    or_else(first_problem(s.previews@.len() as int, preview_checker(s)),
    first_problem(s.references@.len() as int, reference_checker(s))))))))
}

/// Checks that everything the snapshot refers to is in it, once. It succeeds
/// exactly for a consistent snapshot, and otherwise names the first problem
/// in the order the checks run.
#[verifier::rlimit(40)]
pub fn validate_snapshot_contents(s: &CompanionSnapshot) -> (res: Result<(), CompanionError>)
    ensures
        res is Ok <==> snapshot_consistent(*s),
        res matches Err(e) ==> snapshot_error_holds(*s, e),
        res == match snapshot_problem(*s) {
            None => Ok(()),
            Some(e) => Err(e),
        },
{
    let assets = asset_id_list(s);
    let mut ai: usize = 0;
    while ai < assets.len()
        invariant
            assets@ == asset_ids_of(*s),
            ai <= assets@.len(),
            first_problem(ai as int, asset_checker(*s)) is None,
            forall|p: int, q: int| 0 <= p < q < ai ==> assets@[p] != assets@[q],
        decreases assets@.len() - ai,
    {
        let mut j: usize = 0;
        while j < ai
            invariant
                assets@ == asset_ids_of(*s),
                j <= ai < assets@.len(),
                first_problem(ai as int, asset_checker(*s)) is None,
                forall|p: int| 0 <= p < j ==> assets@[p] != assets@[ai as int],
            decreases ai - j,
        {
            if assets[j] == assets[ai] {
                proof {
                    assert(seen_before(asset_ids_of(*s), ai as int));
                    assert(first_problem(ai + 1, asset_checker(*s)) is Some);
                    lemma_first_problem_stays(ai + 1, s.assets@.len() as int, asset_checker(*s));
                    assert(repeated(asset_ids_of(*s), assets@[ai as int]));
                }
                return Err(CompanionError::DuplicateSnapshotAsset(assets[ai]));
            }
            j += 1;
        }
        assert(!seen_before(asset_ids_of(*s), ai as int));
        ai += 1;
    }
    let mut gi: usize = 0;
    while gi < s.groups.len()
        invariant
            assets@ == asset_ids_of(*s),
            all_distinct(asset_ids_of(*s)),
            first_problem(s.assets@.len() as int, asset_checker(*s)) is None,
            gi <= s.groups@.len(),
            first_problem(gi as int, group_checker(*s)) is None,
            forall|p: int, q: int| 0 <= p < q < gi ==> group_ids_of(*s)[p] != group_ids_of(*s)[q],
            forall|i: int, k: int| 0 <= i < gi && 0 <= k < s.groups@[i].asset_ids@.len()
                ==> known_asset(*s, #[trigger] s.groups@[i].asset_ids@[k]),
        decreases s.groups@.len() - gi,
    {
        let gid = s.groups[gi].id;
        let mut j: usize = 0;
        while j < gi
            invariant
                gi < s.groups@.len(),
                gid == s.groups@[gi as int].id,
                first_problem(gi as int, group_checker(*s)) is None,
                first_problem(s.assets@.len() as int, asset_checker(*s)) is None,
                j <= gi,
                forall|p: int| 0 <= p < j ==> group_ids_of(*s)[p] != gid,
            decreases gi - j,
        {
            if s.groups[j].id == gid {
                proof {
                    assert(group_ids_of(*s)[j as int] == group_ids_of(*s)[gi as int]);
                    assert(seen_before(group_ids_of(*s), gi as int));
                    assert(first_problem(gi + 1, group_checker(*s)) is Some);
                    lemma_first_problem_stays(gi + 1, s.groups@.len() as int, group_checker(*s));
                    assert(repeated(group_ids_of(*s), gid));
                }
                return Err(CompanionError::DuplicateSnapshotGroup(gid));
            }
            assert(group_ids_of(*s)[j as int] == s.groups@[j as int].id);
            j += 1;
        }
        assert(!seen_before(group_ids_of(*s), gi as int));
        let mut k: usize = 0;
        while k < s.groups[gi].asset_ids.len()
            invariant
                assets@ == asset_ids_of(*s),
                gi < s.groups@.len(),
                !seen_before(group_ids_of(*s), gi as int),
                first_problem(s.assets@.len() as int, asset_checker(*s)) is None,
                first_problem(gi as int, group_checker(*s)) is None,
                k <= s.groups@[gi as int].asset_ids@.len(),
                first_problem(k as int, member_checker(*s, gi as int)) is None,
                forall|m: int| 0 <= m < k ==> known_asset(*s, #[trigger] s.groups@[gi as int].asset_ids@[m]),
            decreases s.groups@[gi as int].asset_ids@.len() - k,
        {
            let a = s.groups[gi].asset_ids[k];
            if !id_listed(assets.as_slice(), a) {
                proof {
                    let len = s.groups@[gi as int].asset_ids@.len() as int;
                    assert(first_problem(k + 1, member_checker(*s, gi as int)) is Some);
                    lemma_first_problem_stays(k + 1, len, member_checker(*s, gi as int));
                    assert(first_problem(gi + 1, group_checker(*s)) is Some);
                    lemma_first_problem_stays(gi + 1, s.groups@.len() as int, group_checker(*s));
                }
                return Err(CompanionError::UnknownAsset(a));
            }
            k += 1;
        }
        assert(first_problem(gi + 1, group_checker(*s)) is None);
        gi += 1;
    }
    assert(all_distinct(group_ids_of(*s)));
    let mut ci: usize = 0;
    while ci < s.culling.len()
        invariant
            all_distinct(asset_ids_of(*s)),
            all_distinct(group_ids_of(*s)),
            first_problem(s.assets@.len() as int, asset_checker(*s)) is None,
            first_problem(s.groups@.len() as int, group_checker(*s)) is None,
            forall|i: int, k: int| 0 <= i < s.groups@.len() && 0 <= k < s.groups@[i].asset_ids@.len()
                ==> known_asset(*s, #[trigger] s.groups@[i].asset_ids@[k]),
            ci <= s.culling@.len(),
            first_problem(ci as int, culling_checker(*s)) is None,
            forall|i: int| 0 <= i < ci ==> known_group(*s, (#[trigger] s.culling@[i]).group_id),
            forall|i: int, k: int| 0 <= i < ci && 0 <= k < s.culling@[i].asset_ids@.len()
                ==> in_group(*s, s.culling@[i].group_id, #[trigger] s.culling@[i].asset_ids@[k]),
        decreases s.culling@.len() - ci,
    {
        let g = s.culling[ci].group_id;
        let gpos = match group_position(s, g) {
            None => {
                proof {
                    assert(first_problem(ci + 1, culling_checker(*s)) is Some);
                    lemma_first_problem_stays(ci + 1, s.culling@.len() as int, culling_checker(*s));
                }
                return Err(CompanionError::UnknownGroup(g));
            },
            Some(p) => p,
        };
        assert(known_group(*s, g)) by {
            assert(group_ids_of(*s)[gpos as int] == g);
        }
        let mut k: usize = 0;
        while k < s.culling[ci].asset_ids.len()
            invariant
                ci < s.culling@.len(),
                g == s.culling@[ci as int].group_id,
                known_group(*s, g),
                first_problem(s.assets@.len() as int, asset_checker(*s)) is None,
                first_problem(s.groups@.len() as int, group_checker(*s)) is None,
                first_problem(ci as int, culling_checker(*s)) is None,
                is_group_at(*s, g, gpos as int),
                k <= s.culling@[ci as int].asset_ids@.len(),
                first_problem(k as int, culling_member_checker(*s, ci as int)) is None,
                forall|m: int| 0 <= m < k ==> in_group(*s, g, #[trigger] s.culling@[ci as int].asset_ids@[m]),
            decreases s.culling@[ci as int].asset_ids@.len() - k,
        {
            let a = s.culling[ci].asset_ids[k];
            if !member_of(s, gpos, g, a) {
                proof {
                    let len = s.culling@[ci as int].asset_ids@.len() as int;
                    assert(first_problem(k + 1, culling_member_checker(*s, ci as int)) is Some);
                    lemma_first_problem_stays(k + 1, len, culling_member_checker(*s, ci as int));
                    assert(first_problem(ci + 1, culling_checker(*s)) is Some);
                    lemma_first_problem_stays(ci + 1, s.culling@.len() as int, culling_checker(*s));
                }
                return Err(CompanionError::ReferenceOutsideGroup { group_id: g, asset_id: a });
            }
            k += 1;
        }
        assert(first_problem(ci + 1, culling_checker(*s)) is None);
        ci += 1;
    }
    let mut ri: usize = 0;
    while ri < s.culling_reviews.len()
        invariant
            assets@ == asset_ids_of(*s),
            or_else(first_problem(s.assets@.len() as int, asset_checker(*s)), or_else(first_problem(s.groups@.len() as int, group_checker(*s)),
                first_problem(s.culling@.len() as int, culling_checker(*s)))) is None,
            ri <= s.culling_reviews@.len(),
            first_problem(ri as int, review_checker(*s)) is None,
            forall|i: int| 0 <= i < ri ==> known_asset(*s, (#[trigger] s.culling_reviews@[i]).asset_id),
        decreases s.culling_reviews@.len() - ri,
    {
        if !id_listed(assets.as_slice(), s.culling_reviews[ri].asset_id) {
            proof {
                assert(first_problem(ri + 1, review_checker(*s)) is Some);
                lemma_first_problem_stays(ri + 1, s.culling_reviews@.len() as int, review_checker(*s));
            }
            return Err(CompanionError::UnknownAsset(s.culling_reviews[ri].asset_id));
        }
        assert(first_problem(ri + 1, review_checker(*s)) is None);
        ri += 1;
    }
    let mut mi: usize = 0;
    while mi < s.metadata.len()
        invariant
            assets@ == asset_ids_of(*s),
            or_else(first_problem(s.assets@.len() as int, asset_checker(*s)), or_else(first_problem(s.groups@.len() as int, group_checker(*s)),
                or_else(first_problem(s.culling@.len() as int, culling_checker(*s)), first_problem(s.culling_reviews@.len() as int, review_checker(*s))))) is None,
            mi <= s.metadata@.len(),
            first_problem(mi as int, metadata_checker(*s)) is None,
            forall|i: int| 0 <= i < mi ==> known_asset(*s, (#[trigger] s.metadata@[i]).asset_id),
        decreases s.metadata@.len() - mi,
    {
        if !id_listed(assets.as_slice(), s.metadata[mi].asset_id) {
            proof {
                assert(first_problem(mi + 1, metadata_checker(*s)) is Some);
                lemma_first_problem_stays(mi + 1, s.metadata@.len() as int, metadata_checker(*s));
            }
            return Err(CompanionError::UnknownAsset(s.metadata[mi].asset_id));
        }
        assert(first_problem(mi + 1, metadata_checker(*s)) is None);
        mi += 1;
    }
    let mut pi: usize = 0;
    while pi < s.previews.len()
        invariant
            assets@ == asset_ids_of(*s),
            or_else(first_problem(s.assets@.len() as int, asset_checker(*s)), or_else(first_problem(s.groups@.len() as int, group_checker(*s)),
                or_else(first_problem(s.culling@.len() as int, culling_checker(*s)), or_else(first_problem(s.culling_reviews@.len() as int, review_checker(*s)),
                first_problem(s.metadata@.len() as int, metadata_checker(*s)))))) is None,
            pi <= s.previews@.len(),
            first_problem(pi as int, preview_checker(*s)) is None,
            forall|i: int| 0 <= i < pi ==> known_asset(*s, (#[trigger] s.previews@[i]).asset_id),
        decreases s.previews@.len() - pi,
    {
        if !id_listed(assets.as_slice(), s.previews[pi].asset_id) {
            proof {
                assert(first_problem(pi + 1, preview_checker(*s)) is Some);
                lemma_first_problem_stays(pi + 1, s.previews@.len() as int, preview_checker(*s));
            }
            return Err(CompanionError::UnknownAsset(s.previews[pi].asset_id));
        }
        assert(first_problem(pi + 1, preview_checker(*s)) is None);
        pi += 1;
    }
    let mut xi: usize = 0;
    while xi < s.references.len()
        invariant
            or_else(first_problem(s.assets@.len() as int, asset_checker(*s)), or_else(first_problem(s.groups@.len() as int, group_checker(*s)),
                or_else(first_problem(s.culling@.len() as int, culling_checker(*s)), or_else(first_problem(s.culling_reviews@.len() as int, review_checker(*s)),
                or_else(first_problem(s.metadata@.len() as int, metadata_checker(*s)), first_problem(s.previews@.len() as int, preview_checker(*s))))))) is None,
            xi <= s.references@.len(),
            first_problem(xi as int, reference_checker(*s)) is None,
            forall|i: int| 0 <= i < xi ==> reference_consistent(*s, #[trigger] s.references@[i]),
        decreases s.references@.len() - xi,
    {
        let state = &s.references[xi];
        let g = state.binding.group_id;
        let gpos = match group_position(s, g) {
            None => {
                proof {
                    assert(s.references@[xi as int] == *state);
                    assert(first_problem(xi + 1, reference_checker(*s)) is Some);
                    lemma_first_problem_stays(xi + 1, s.references@.len() as int, reference_checker(*s));
                }
                return Err(CompanionError::UnknownGroup(g));
            },
            Some(p) => p,
        };
        assert(known_group(*s, g)) by {
            assert(group_ids_of(*s)[gpos as int] == g);
        }
        let selected = state.binding.selected_reference_asset_id;
        if !member_of(s, gpos, g, selected) || !id_listed(state.reference_photo_ids.as_slice(), selected) {
            proof {
                assert(s.references@[xi as int] == *state);
                assert(first_problem(xi + 1, reference_checker(*s)) is Some);
                lemma_first_problem_stays(xi + 1, s.references@.len() as int, reference_checker(*s));
            }
            return Err(CompanionError::ReferenceOutsideGroup { group_id: g, asset_id: selected });
        }
        if state.reference_set_id != state.binding.reference_set_id {
            proof {
                assert(s.references@[xi as int] == *state);
                assert(first_problem(xi + 1, reference_checker(*s)) is Some);
                lemma_first_problem_stays(xi + 1, s.references@.len() as int, reference_checker(*s));
            }
            return Err(CompanionError::Reference(ReferenceStoreError::ReferenceSetNotFound(state.binding.reference_set_id)));
        }
        assert(s.references@[xi as int] == *state);
        assert(first_problem(xi + 1, reference_checker(*s)) is None);
        xi += 1;
    }
    Ok(())
}


// ----- decisions as of the snapshot -----

/// The reference binding the snapshot records for group `g`: its last one.
pub open spec fn snapshot_binding(refs: Seq<CompanionReferenceState>, g: u128) -> Option<GroupReferenceBinding>
    decreases refs.len(),
{
    if refs.len() == 0 {
        None
    } else if refs.last().binding.group_id == g {
        Some(refs.last().binding)
    } else {
        snapshot_binding(refs.drop_last(), g)
    }
}

pub open spec fn snapshot_selection(refs: Seq<CompanionReferenceState>, g: u128) -> Option<u128> {
    match snapshot_binding(refs, g) {
        Some(b) => Some(b.selected_reference_asset_id),
        None => None,
    }
}

fn binding_in_snapshot(refs: &Vec<CompanionReferenceState>, g: u128) -> (res: Option<GroupReferenceBinding>)
    ensures
        res == snapshot_binding(refs@, g),
{
    let mut i: usize = refs.len();
    assert(refs@.subrange(0, i as int) =~= refs@);
    while i > 0
        invariant
            i <= refs@.len(),
            snapshot_binding(refs@, g) == snapshot_binding(refs@.subrange(0, i as int), g),
        decreases i,
    {
        let ghost pre = refs@.subrange(0, i as int);
        assert(pre.drop_last() =~= refs@.subrange(0, i - 1));
        if refs[i - 1].binding.group_id == g {
            return Some(refs[i - 1].binding);
        }
        i -= 1;
    }
    assert(refs@.subrange(0, 0) =~= Seq::<CompanionReferenceState>::empty());
    None
}

// ----- the decision patch -----

/// The culling changes between the snapshot and the current decisions
/// (`current[i]` for the `i`-th asset), for the first `n` assets in order.
pub open spec fn culling_diff(ids: Seq<u128>, current: Seq<Option<CullingUserDecision>>, reviews: Seq<CullingReview>, n: int) -> Seq<CompanionCullingChange>
    decreases n,
{
    if n <= 0 {
        seq![]
    } else {
        let rest = culling_diff(ids, current, reviews, n - 1);
        if current[n - 1] != latest_decision(reviews, ids[n - 1]) {
            rest.push(CompanionCullingChange { asset_id: ids[n - 1], decision: current[n - 1] })
        } else {
            rest
        }
    }
}

/// The reference changes between the snapshot and the current selections
/// (`current[i]` for the `i`-th group), for the first `n` groups in order.
pub open spec fn reference_diff(ids: Seq<u128>, current: Seq<Option<u128>>, refs: Seq<CompanionReferenceState>, n: int) -> Seq<CompanionReferenceChange>
    decreases n,
{
    if n <= 0 {
        seq![]
    } else {
        let rest = reference_diff(ids, current, refs, n - 1);
        if current[n - 1] != snapshot_selection(refs, ids[n - 1]) {
            rest.push(CompanionReferenceChange { group_id: ids[n - 1], selected_reference_asset_id: current[n - 1] })
        } else {
            rest
        }
    }
}

/// Builds the patch of the companion's decisions against the snapshot it was
/// hydrated from: `current_decisions[i]` is the current decision for the
/// `i`-th asset of the snapshot and `current_selections[i]` the current
/// reference of its `i`-th group. Only what differs from the snapshot is in
/// the patch, in snapshot order.
pub fn build_companion_decision_patch(
    snapshot: &CompanionSnapshot,
    current_decisions: &Vec<Option<CullingUserDecision>>,
    current_selections: &Vec<Option<u128>>,
) -> (res: Result<CompanionDecisionPatch, CompanionError>)
    requires
        current_decisions@.len() == snapshot.assets@.len(),
        current_selections@.len() == snapshot.groups@.len(),
    ensures
        snapshot.schema_version != COMPANION_SNAPSHOT_SCHEMA_VERSION
            ==> res == Err::<CompanionDecisionPatch, CompanionError>(CompanionError::UnsupportedSchema(snapshot.schema_version)),
        snapshot.schema_version == COMPANION_SNAPSHOT_SCHEMA_VERSION ==> (res matches Ok(p)
            && p.schema_version == COMPANION_SNAPSHOT_SCHEMA_VERSION
            && p.base_snapshot_id == snapshot.snapshot_id
            && p.batch_id == snapshot.batch_id
            && p.culling_changes@ == culling_diff(asset_ids_of(*snapshot), current_decisions@, snapshot.culling_reviews@, snapshot.assets@.len() as int)
            && p.reference_changes@ == reference_diff(group_ids_of(*snapshot), current_selections@, snapshot.references@, snapshot.groups@.len() as int)),
{
    if snapshot.schema_version != COMPANION_SNAPSHOT_SCHEMA_VERSION {
        return Err(CompanionError::UnsupportedSchema(snapshot.schema_version));
    }
    let ghost ids = asset_ids_of(*snapshot);
    let mut culling_changes: Vec<CompanionCullingChange> = Vec::new();
    let mut i: usize = 0;
    while i < snapshot.assets.len()
        invariant
            i <= snapshot.assets@.len(),
            current_decisions@.len() == snapshot.assets@.len(),
            ids == asset_ids_of(*snapshot),
            culling_changes@ == culling_diff(ids, current_decisions@, snapshot.culling_reviews@, i as int),
        decreases snapshot.assets@.len() - i,
    {
        let a = snapshot.assets[i].id;
        assert(ids[i as int] == a);
        let baseline = latest_decision_in(&snapshot.culling_reviews, a);
        let current = current_decisions[i];
        if current != baseline {
            culling_changes.push(CompanionCullingChange { asset_id: a, decision: current });
        }
        i += 1;
    }
    let ghost gids = group_ids_of(*snapshot);
    let mut reference_changes: Vec<CompanionReferenceChange> = Vec::new();
    let mut j: usize = 0;
    while j < snapshot.groups.len()
        invariant
            j <= snapshot.groups@.len(),
            current_selections@.len() == snapshot.groups@.len(),
            gids == group_ids_of(*snapshot),
            reference_changes@ == reference_diff(gids, current_selections@, snapshot.references@, j as int),
        decreases snapshot.groups@.len() - j,
    {
        let g = snapshot.groups[j].id;
        assert(gids[j as int] == g);
        let baseline = match binding_in_snapshot(&snapshot.references, g) {
            Some(b) => Some(b.selected_reference_asset_id),
            None => None,
        };
        let current = current_selections[j];
        if current != baseline {
            reference_changes.push(CompanionReferenceChange { group_id: g, selected_reference_asset_id: current });
        }
        j += 1;
    }
    Ok(CompanionDecisionPatch {
        schema_version: COMPANION_SNAPSHOT_SCHEMA_VERSION,
        base_snapshot_id: snapshot.snapshot_id,
        batch_id: snapshot.batch_id,
        culling_changes,
        reference_changes,
    })
}

// ----- the decisions a patch leaves -----

/// The last culling change in `changes` for `a`.
pub open spec fn culling_change_for(changes: Seq<CompanionCullingChange>, a: u128) -> Option<Option<CullingUserDecision>>
    decreases changes.len(),
{
    if changes.len() == 0 {
        None
    } else if changes.last().asset_id == a {
        Some(changes.last().decision)
    } else {
        culling_change_for(changes.drop_last(), a)
    }
}

/// The last reference change in `changes` for `g`.
pub open spec fn reference_change_for(changes: Seq<CompanionReferenceChange>, g: u128) -> Option<Option<u128>>
    decreases changes.len(),
{
    if changes.len() == 0 {
        None
    } else if changes.last().group_id == g {
        Some(changes.last().selected_reference_asset_id)
    } else {
        reference_change_for(changes.drop_last(), g)
    }
}

/// The decision `a` ends with once `changes` are applied to the snapshot.
pub open spec fn final_decision(reviews: Seq<CullingReview>, changes: Seq<CompanionCullingChange>, a: u128) -> Option<CullingUserDecision> {
    match culling_change_for(changes, a) {
        Some(d) => d,
        None => latest_decision(reviews, a),
    }
}

/// The reference group `g` ends with once `changes` are applied.
pub open spec fn final_selection(refs: Seq<CompanionReferenceState>, changes: Seq<CompanionReferenceChange>, g: u128) -> Option<u128> {
    match reference_change_for(changes, g) {
        Some(sel) => sel,
        None => snapshot_selection(refs, g),
    }
}

proof fn lemma_culling_diff(ids: Seq<u128>, current: Seq<Option<CullingUserDecision>>, reviews: Seq<CullingReview>, n: int, a: u128)
    requires
        0 <= n <= ids.len(),
        current.len() == ids.len(),
        all_distinct(ids),
    ensures
        (exists|i: int| 0 <= i < n && ids[i] == a && current[i] != latest_decision(reviews, a))
            ==> (forall|i: int| 0 <= i < n && ids[i] == a ==> culling_change_for(culling_diff(ids, current, reviews, n), a) == Some(current[i])),
        !(exists|i: int| 0 <= i < n && ids[i] == a && current[i] != latest_decision(reviews, a))
            ==> culling_change_for(culling_diff(ids, current, reviews, n), a) is None,
    decreases n,
{
    if n > 0 {
        lemma_culling_diff(ids, current, reviews, n - 1, a);
        let rest = culling_diff(ids, current, reviews, n - 1);
        if current[n - 1] != latest_decision(reviews, ids[n - 1]) {
            let d = rest.push(CompanionCullingChange { asset_id: ids[n - 1], decision: current[n - 1] });
            assert(d.drop_last() =~= rest);
        }
        if ids[n - 1] != a {
            assert forall|i: int| 0 <= i < n && ids[i] == a implies 0 <= i < n - 1 by {}
        } else {
            assert forall|i: int| 0 <= i < n - 1 implies ids[i] != a by {
                assert(ids[i] != ids[n - 1]);
            }
        }
    }
}

proof fn lemma_reference_diff(ids: Seq<u128>, current: Seq<Option<u128>>, refs: Seq<CompanionReferenceState>, n: int, g: u128)
    requires
        0 <= n <= ids.len(),
        current.len() == ids.len(),
        all_distinct(ids),
    ensures
        (exists|i: int| 0 <= i < n && ids[i] == g && current[i] != snapshot_selection(refs, g))
            ==> (forall|i: int| 0 <= i < n && ids[i] == g ==> reference_change_for(reference_diff(ids, current, refs, n), g) == Some(current[i])),
        !(exists|i: int| 0 <= i < n && ids[i] == g && current[i] != snapshot_selection(refs, g))
            ==> reference_change_for(reference_diff(ids, current, refs, n), g) is None,
    decreases n,
{
    if n > 0 {
        lemma_reference_diff(ids, current, refs, n - 1, g);
        let rest = reference_diff(ids, current, refs, n - 1);
        if current[n - 1] != snapshot_selection(refs, ids[n - 1]) {
            let d = rest.push(CompanionReferenceChange { group_id: ids[n - 1], selected_reference_asset_id: current[n - 1] });
            assert(d.drop_last() =~= rest);
        }
        if ids[n - 1] != g {
            assert forall|i: int| 0 <= i < n && ids[i] == g implies 0 <= i < n - 1 by {}
        } else {
            assert forall|i: int| 0 <= i < n - 1 implies ids[i] != g by {
                assert(ids[i] != ids[n - 1]);
            }
        }
    }
}

/// Applying the decision patch to the snapshot gives back the companion's
/// current decisions and references: for every asset and group of a
/// consistent snapshot, what the patch leaves is what the companion holds.
pub proof fn decision_patch_round_trip(
    s: CompanionSnapshot,
    current_decisions: Seq<Option<CullingUserDecision>>,
    current_selections: Seq<Option<u128>>,
)
    requires
        snapshot_consistent(s),
        current_decisions.len() == s.assets@.len(),
        current_selections.len() == s.groups@.len(),
    ensures
        forall|i: int| 0 <= i < s.assets@.len() ==> #[trigger] final_decision(
            s.culling_reviews@,
            culling_diff(asset_ids_of(s), current_decisions, s.culling_reviews@, s.assets@.len() as int),
            s.assets@[i].id,
        ) == current_decisions[i],
        forall|i: int| 0 <= i < s.groups@.len() ==> #[trigger] final_selection(
            s.references@,
            reference_diff(group_ids_of(s), current_selections, s.references@, s.groups@.len() as int),
            s.groups@[i].id,
        ) == current_selections[i],
{
    let ids = asset_ids_of(s);
    let gids = group_ids_of(s);
    assert forall|i: int| 0 <= i < s.assets@.len() implies #[trigger] final_decision(
        s.culling_reviews@,
        culling_diff(ids, current_decisions, s.culling_reviews@, s.assets@.len() as int),
        s.assets@[i].id,
    ) == current_decisions[i] by {
        let a = s.assets@[i].id;
        assert(ids[i] == a);
        lemma_culling_diff(ids, current_decisions, s.culling_reviews@, s.assets@.len() as int, a);
    }
    assert forall|i: int| 0 <= i < s.groups@.len() implies #[trigger] final_selection(
        s.references@,
        reference_diff(gids, current_selections, s.references@, s.groups@.len() as int),
        s.groups@[i].id,
    ) == current_selections[i] by {
        let g = s.groups@[i].id;
        assert(gids[i] == g);
        lemma_reference_diff(gids, current_selections, s.references@, s.groups@.len() as int, g);
    }
}

/// A patch holds changes only: an unchanged decision or reference is never
/// in it.
pub proof fn decision_patch_holds_changes_only(
    s: CompanionSnapshot,
    current_decisions: Seq<Option<CullingUserDecision>>,
    i: int,
)
    requires
        snapshot_consistent(s),
        current_decisions.len() == s.assets@.len(),
        0 <= i < s.assets@.len(),
        current_decisions[i] == latest_decision(s.culling_reviews@, s.assets@[i].id),
    ensures
        culling_change_for(
            culling_diff(asset_ids_of(s), current_decisions, s.culling_reviews@, s.assets@.len() as int),
            s.assets@[i].id,
        ) is None,
{
    let ids = asset_ids_of(s);
    let a = s.assets@[i].id;
    assert(ids[i] == a);
    lemma_culling_diff(ids, current_decisions, s.culling_reviews@, s.assets@.len() as int, a);
    assert forall|j: int| 0 <= j < s.assets@.len() && ids[j] == a implies current_decisions[j] == latest_decision(s.culling_reviews@, a) by {
        if j != i {
            assert(ids[j] != ids[i]);
        }
    }
}

// ----- applying a patch -----

/// A patch may be applied only to the snapshot and batch it was made from,
/// both at the supported schema.
pub fn check_patch_identity(snapshot: &CompanionSnapshot, patch: &CompanionDecisionPatch) -> (res: Result<(), CompanionError>)
    ensures
        res == (if snapshot.schema_version != COMPANION_SNAPSHOT_SCHEMA_VERSION {
            Err::<(), CompanionError>(CompanionError::UnsupportedSchema(snapshot.schema_version))
        } else if patch.schema_version != COMPANION_SNAPSHOT_SCHEMA_VERSION {
            Err(CompanionError::UnsupportedSchema(patch.schema_version))
        } else if patch.base_snapshot_id != snapshot.snapshot_id {
            Err(CompanionError::SnapshotMismatch { expected: snapshot.snapshot_id, actual: patch.base_snapshot_id })
        } else if patch.batch_id != snapshot.batch_id {
            Err(CompanionError::BatchMismatch { expected: snapshot.batch_id, actual: patch.batch_id })
        } else {
            Ok(())
        }),
{
    if snapshot.schema_version != COMPANION_SNAPSHOT_SCHEMA_VERSION {
        return Err(CompanionError::UnsupportedSchema(snapshot.schema_version));
    }
    if patch.schema_version != COMPANION_SNAPSHOT_SCHEMA_VERSION {
        return Err(CompanionError::UnsupportedSchema(patch.schema_version));
    }
    if patch.base_snapshot_id != snapshot.snapshot_id {
        return Err(CompanionError::SnapshotMismatch { expected: snapshot.snapshot_id, actual: patch.base_snapshot_id });
    }
    if patch.batch_id != snapshot.batch_id {
        return Err(CompanionError::BatchMismatch { expected: snapshot.batch_id, actual: patch.batch_id });
    }
    Ok(())
}

pub open spec fn changed_assets(patch: CompanionDecisionPatch) -> Seq<u128> {
    patch.culling_changes@.map_values(|c: CompanionCullingChange| c.asset_id)
}

/// The groups whose workstation reference must be unchanged for a patch to
/// apply: the groups it changes, and the groups whose snapshot reference is a
/// photo whose decision it changes.
pub open spec fn touched_group(s: CompanionSnapshot, patch: CompanionDecisionPatch, g: u128) -> bool {
    ||| exists|j: int| 0 <= j < patch.reference_changes@.len() && (#[trigger] patch.reference_changes@[j]).group_id == g
    ||| exists|i: int| 0 <= i < s.references@.len() && (#[trigger] s.references@[i]).binding.group_id == g
        && changed_assets(patch).contains(s.references@[i].binding.selected_reference_asset_id)
}

proof fn lemma_push_contains(s: Seq<u128>, x: u128, b: u128)
    ensures
        s.push(x).contains(b) <==> (s.contains(b) || b == x),
{
    if s.contains(b) {
        let k = choose|k: int| 0 <= k < s.len() && s[k] == b;
        assert(s.push(x)[k] == b);
    }
    if b == x {
        assert(s.push(x)[s.len() as int] == x);
    }
    if s.push(x).contains(b) {
        let k = choose|k: int| 0 <= k < s.push(x).len() && s.push(x)[k] == b;
        if k < s.len() {
            assert(s[k] == b);
        }
    }
}

proof fn lemma_push_distinct(s: Seq<u128>, x: u128)
    requires
        all_distinct(s),
        !s.contains(x),
    ensures
        all_distinct(s.push(x)),
{
    let t = s.push(x);
    assert forall|i: int, j: int| 0 <= i < j < t.len() implies t[i] != t[j] by {
        if j == s.len() {
            assert(t[i] == s[i]);
            if s[i] == x {
                assert(s.contains(x));
            }
        } else {
            assert(t[i] == s[i] && t[j] == s[j]);
        }
    }
}

/// Adds `x` to the distinct list `out` unless it is already there.
fn add_once(out: &mut Vec<u128>, x: u128)
    requires
        all_distinct(old(out)@),
    ensures
        all_distinct(final(out)@),
        forall|b: u128| final(out)@.contains(b) <==> (old(out)@.contains(b) || b == x),
{
    if !id_listed(out.as_slice(), x) {
        proof {
            lemma_push_distinct(out@, x);
        }
        out.push(x);
        proof {
            assert forall|b: u128| out@.contains(b) <==> (old(out)@.contains(b) || b == x) by {
                lemma_push_contains(old(out)@, x, b);
            }
        }
    }
}

/// The assets a patch changes, each once, in patch order.
pub fn touched_assets(patch: &CompanionDecisionPatch) -> (res: Vec<u128>)
    ensures
        all_distinct(res@),
        forall|a: u128| res@.contains(a) <==> changed_assets(*patch).contains(a),
{
    let mut out: Vec<u128> = Vec::new();
    let mut i: usize = 0;
    while i < patch.culling_changes.len()
        invariant
            i <= patch.culling_changes@.len(),
            all_distinct(out@),
            forall|a: u128| out@.contains(a) <==> changed_assets(*patch).subrange(0, i as int).contains(a),
        decreases patch.culling_changes@.len() - i,
    {
        let a = patch.culling_changes[i].asset_id;
        let ghost pre = changed_assets(*patch).subrange(0, i as int);
        let ghost next = changed_assets(*patch).subrange(0, i + 1);
        assert(next =~= pre.push(a));
        add_once(&mut out, a);
        proof {
            assert forall|b: u128| out@.contains(b) <==> next.contains(b) by {
                lemma_push_contains(pre, a, b);
            }
        }
        i += 1;
    }
    assert(changed_assets(*patch).subrange(0, patch.culling_changes@.len() as int) =~= changed_assets(*patch));
    out
}

/// The groups a patch touches (see `touched_group`), each once.
pub fn touched_groups(snapshot: &CompanionSnapshot, patch: &CompanionDecisionPatch) -> (res: Vec<u128>)
    ensures
        all_distinct(res@),
        forall|g: u128| res@.contains(g) <==> touched_group(*snapshot, *patch, g),
{
    let assets = touched_assets(patch);
    let mut out: Vec<u128> = Vec::new();
    let mut j: usize = 0;
    while j < patch.reference_changes.len()
        invariant
            j <= patch.reference_changes@.len(),
            all_distinct(out@),
            forall|g: u128| out@.contains(g) <==> exists|k: int| 0 <= k < j && (#[trigger] patch.reference_changes@[k]).group_id == g,
        decreases patch.reference_changes@.len() - j,
    {
        let g = patch.reference_changes[j].group_id;
        add_once(&mut out, g);
        proof {
            assert forall|h: u128| out@.contains(h) <==> exists|k: int| 0 <= k < j + 1 && (#[trigger] patch.reference_changes@[k]).group_id == h by {
                if h == g {
                    assert(patch.reference_changes@[j as int].group_id == h);
                }
            }
        }
        j += 1;
    }
    let mut i: usize = 0;
    while i < snapshot.references.len()
        invariant
            i <= snapshot.references@.len(),
            all_distinct(out@),
            forall|a: u128| assets@.contains(a) <==> changed_assets(*patch).contains(a),
            forall|g: u128| out@.contains(g) <==> (
                (exists|k: int| 0 <= k < patch.reference_changes@.len() && (#[trigger] patch.reference_changes@[k]).group_id == g)
                || exists|k: int| 0 <= k < i && (#[trigger] snapshot.references@[k]).binding.group_id == g
                    && changed_assets(*patch).contains(snapshot.references@[k].binding.selected_reference_asset_id)),
        decreases snapshot.references@.len() - i,
    {
        let b = snapshot.references[i].binding;
        assert(snapshot.references@[i as int].binding == b);
        if id_listed(assets.as_slice(), b.selected_reference_asset_id) {
            add_once(&mut out, b.group_id);
        }
        i += 1;
    }
    out
}

/// The workstation must not have changed anything the patch touches since the
/// snapshot: `current_decisions[i]` is the workstation's decision for the
/// `i`-th touched asset, `current_bindings[i]` its binding for the `i`-th
/// touched group. The first difference is reported.
pub fn check_concurrent_state(
    snapshot: &CompanionSnapshot,
    assets: &Vec<u128>,
    current_decisions: &Vec<Option<CullingUserDecision>>,
    groups: &Vec<u128>,
    current_bindings: &Vec<Option<GroupReferenceBinding>>,
) -> (res: Result<(), CompanionError>)
    requires
        current_decisions@.len() == assets@.len(),
        current_bindings@.len() == groups@.len(),
    ensures
        res is Ok <==> (forall|i: int| 0 <= i < assets@.len()
                ==> #[trigger] current_decisions@[i] == latest_decision(snapshot.culling_reviews@, assets@[i]))
            && (forall|i: int| 0 <= i < groups@.len()
                ==> #[trigger] current_bindings@[i] == snapshot_binding(snapshot.references@, groups@[i])),
        res matches Err(e) ==> (exists|i: int| 0 <= i < assets@.len()
                && current_decisions@[i] != latest_decision(snapshot.culling_reviews@, assets@[i])
                && e == CompanionError::ConcurrentCullingChange(assets@[i]))
            || (exists|i: int| 0 <= i < groups@.len()
                && current_bindings@[i] != snapshot_binding(snapshot.references@, groups@[i])
                && e == CompanionError::ConcurrentReferenceChange(groups@[i])),
{
    let mut i: usize = 0;
    while i < assets.len()
        invariant
            i <= assets@.len(),
            current_decisions@.len() == assets@.len(),
            forall|k: int| 0 <= k < i ==> #[trigger] current_decisions@[k] == latest_decision(snapshot.culling_reviews@, assets@[k]),
        decreases assets@.len() - i,
    {
        let expected = latest_decision_in(&snapshot.culling_reviews, assets[i]);
        if current_decisions[i] != expected {
            return Err(CompanionError::ConcurrentCullingChange(assets[i]));
        }
        i += 1;
    }
    let mut j: usize = 0;
    while j < groups.len()
        invariant
            j <= groups@.len(),
            current_bindings@.len() == groups@.len(),
            forall|k: int| 0 <= k < j ==> #[trigger] current_bindings@[k] == snapshot_binding(snapshot.references@, groups@[k]),
        decreases groups@.len() - j,
    {
        let expected = binding_in_snapshot(&snapshot.references, groups[j]);
        if current_bindings[j] != expected {
            return Err(CompanionError::ConcurrentReferenceChange(groups[j]));
        }
        j += 1;
    }
    Ok(())
}

// ----- the changes of a patch -----

pub open spec fn culling_change_ok(s: CompanionSnapshot, changes: Seq<CompanionCullingChange>, j: int) -> bool {
    &&& known_asset(s, changes[j].asset_id)
    &&& forall|k: int| 0 <= k < j ==> (#[trigger] changes[k]).asset_id != changes[j].asset_id
}

pub open spec fn reference_change_ok(s: CompanionSnapshot, changes: Seq<CompanionReferenceChange>, j: int) -> bool {
    &&& known_group(s, changes[j].group_id)
    &&& forall|k: int| 0 <= k < j ==> (#[trigger] changes[k]).group_id != changes[j].group_id
    &&& changes[j].selected_reference_asset_id matches Some(a) ==> in_group(s, changes[j].group_id, a)
}

/// Once the patch is applied, group `g` would have the photo `a` as its
/// reference while `a` is rejected.
pub open spec fn rejected_reference(s: CompanionSnapshot, patch: CompanionDecisionPatch, g: u128, a: u128) -> bool {
    &&& final_selection(s.references@, patch.reference_changes@, g) == Some(a)
    &&& final_decision(s.culling_reviews@, patch.culling_changes@, a) == Some(CullingUserDecision::Reject)
}

/// A patch's changes are sound for the snapshot: each names a known asset or
/// group once, each reference stays inside its group, and no group ends with
/// a rejected reference.
pub open spec fn patch_changes_valid(s: CompanionSnapshot, patch: CompanionDecisionPatch) -> bool {
    &&& forall|j: int| 0 <= j < patch.culling_changes@.len() ==> #[trigger] culling_change_ok(s, patch.culling_changes@, j)
    &&& forall|j: int| 0 <= j < patch.reference_changes@.len() ==> #[trigger] reference_change_ok(s, patch.reference_changes@, j)
    &&& forall|g: u128, a: u128| !#[trigger] rejected_reference(s, patch, g, a)
}

/// The error reported for the first unsound change, or for a rejected
/// reference when every change is sound.
pub open spec fn patch_error_holds(s: CompanionSnapshot, patch: CompanionDecisionPatch, e: CompanionError) -> bool {
    let cc = patch.culling_changes@;
    let rc = patch.reference_changes@;
    ||| exists|j: int| 0 <= j < cc.len() && !culling_change_ok(s, cc, j)
        && (forall|k: int| 0 <= k < j ==> #[trigger] culling_change_ok(s, cc, k))
        && e == (if !known_asset(s, cc[j].asset_id) {
            CompanionError::UnknownAsset(cc[j].asset_id)
        } else {
            CompanionError::DuplicateCullingChange(cc[j].asset_id)
        })
    ||| (forall|k: int| 0 <= k < cc.len() ==> #[trigger] culling_change_ok(s, cc, k))
        && exists|j: int| 0 <= j < rc.len() && !reference_change_ok(s, rc, j)
        && (forall|k: int| 0 <= k < j ==> #[trigger] reference_change_ok(s, rc, k))
        && e == (if !known_group(s, rc[j].group_id) {
            CompanionError::UnknownGroup(rc[j].group_id)
        } else if exists|k: int| 0 <= k < j && (#[trigger] rc[k]).group_id == rc[j].group_id {
            CompanionError::DuplicateReferenceChange(rc[j].group_id)
        } else {
            CompanionError::ReferenceOutsideGroup { group_id: rc[j].group_id, asset_id: rc[j].selected_reference_asset_id->0 }
        })
    ||| (forall|k: int| 0 <= k < cc.len() ==> #[trigger] culling_change_ok(s, cc, k))
        && (forall|k: int| 0 <= k < rc.len() ==> #[trigger] reference_change_ok(s, rc, k))
        && (e matches CompanionError::RejectedReference { group_id, asset_id } && rejected_reference(s, patch, group_id, asset_id))
}

proof fn lemma_reference_change_index(changes: Seq<CompanionReferenceChange>, g: u128)
    ensures
        reference_change_for(changes, g) matches Some(sel) ==> exists|j: int| 0 <= j < changes.len()
            && (#[trigger] changes[j]).group_id == g && changes[j].selected_reference_asset_id == sel,
        reference_change_for(changes, g) is None ==> forall|j: int| 0 <= j < changes.len() ==> (#[trigger] changes[j]).group_id != g,
    decreases changes.len(),
{
    if changes.len() > 0 {
        lemma_reference_change_index(changes.drop_last(), g);
        if changes.last().group_id != g {
            if reference_change_for(changes, g) is Some {
                let j = choose|j: int| 0 <= j < changes.drop_last().len() && (#[trigger] changes.drop_last()[j]).group_id == g
                    && changes.drop_last()[j].selected_reference_asset_id == reference_change_for(changes, g)->0;
                assert(changes[j] == changes.drop_last()[j]);
            } else {
                assert forall|j: int| 0 <= j < changes.len() implies (#[trigger] changes[j]).group_id != g by {
                    if j < changes.len() - 1 {
                        assert(changes[j] == changes.drop_last()[j]);
                    }
                }
            }
        } else {
            assert(changes[changes.len() - 1] == changes.last());
        }
    }
}

/// The last binding for a group is that of the last reference state for it.
proof fn lemma_binding_index(refs: Seq<CompanionReferenceState>, i: int)
    requires
        0 <= i < refs.len(),
        forall|k: int| i < k < refs.len() ==> (#[trigger] refs[k]).binding.group_id != refs[i].binding.group_id,
    ensures
        snapshot_binding(refs, refs[i].binding.group_id) == Some(refs[i].binding),
    decreases refs.len(),
{
    if i < refs.len() - 1 {
        assert(refs[refs.len() - 1] == refs.last());
        assert(refs.drop_last()[i] == refs[i]);
        assert forall|k: int| i < k < refs.drop_last().len() implies (#[trigger] refs.drop_last()[k]).binding.group_id != refs.drop_last()[i].binding.group_id by {
            assert(refs.drop_last()[k] == refs[k]);
        }
        lemma_binding_index(refs.drop_last(), i);
    }
}

proof fn lemma_binding_exists(refs: Seq<CompanionReferenceState>, g: u128)
    ensures
        snapshot_binding(refs, g) matches Some(b) ==> exists|i: int| 0 <= i < refs.len() && (#[trigger] refs[i]).binding == b
            && b.group_id == g
            && forall|k: int| i < k < refs.len() ==> (#[trigger] refs[k]).binding.group_id != g,
    decreases refs.len(),
{
    if refs.len() > 0 {
        if refs.last().binding.group_id == g {
            assert(refs[refs.len() - 1] == refs.last());
        } else {
            lemma_binding_exists(refs.drop_last(), g);
            if snapshot_binding(refs, g) is Some {
                let b = snapshot_binding(refs, g)->0;
                let i = choose|i: int| 0 <= i < refs.drop_last().len() && (#[trigger] refs.drop_last()[i]).binding == b
                    && b.group_id == g
                    && forall|k: int| i < k < refs.drop_last().len() ==> (#[trigger] refs.drop_last()[k]).binding.group_id != g;
                assert(refs[i] == refs.drop_last()[i]);
                assert forall|k: int| i < k < refs.len() implies (#[trigger] refs[k]).binding.group_id != g by {
                    if k < refs.len() - 1 {
                        assert(refs[k] == refs.drop_last()[k]);
                    } else {
                        assert(refs[k] == refs.last());
                    }
                }
            }
        }
    }
}

fn culling_change_in(changes: &Vec<CompanionCullingChange>, a: u128) -> (res: Option<Option<CullingUserDecision>>)
    ensures
        res == culling_change_for(changes@, a),
{
    let mut i: usize = changes.len();
    assert(changes@.subrange(0, i as int) =~= changes@);
    while i > 0
        invariant
            i <= changes@.len(),
            culling_change_for(changes@, a) == culling_change_for(changes@.subrange(0, i as int), a),
        decreases i,
    {
        assert(changes@.subrange(0, i as int).drop_last() =~= changes@.subrange(0, i - 1));
        if changes[i - 1].asset_id == a {
            return Some(changes[i - 1].decision);
        }
        i -= 1;
    }
    None
}

fn reference_change_in(changes: &Vec<CompanionReferenceChange>, g: u128) -> (res: Option<Option<u128>>)
    ensures
        res == reference_change_for(changes@, g),
{
    let mut i: usize = changes.len();
    assert(changes@.subrange(0, i as int) =~= changes@);
    while i > 0
        invariant
            i <= changes@.len(),
            reference_change_for(changes@, g) == reference_change_for(changes@.subrange(0, i as int), g),
        decreases i,
    {
        assert(changes@.subrange(0, i as int).drop_last() =~= changes@.subrange(0, i - 1));
        if changes[i - 1].group_id == g {
            return Some(changes[i - 1].selected_reference_asset_id);
        }
        i -= 1;
    }
    None
}

fn final_decision_of(snapshot: &CompanionSnapshot, patch: &CompanionDecisionPatch, a: u128) -> (res: Option<CullingUserDecision>)
    ensures
        res == final_decision(snapshot.culling_reviews@, patch.culling_changes@, a),
{
    match culling_change_in(&patch.culling_changes, a) {
        Some(d) => d,
        None => latest_decision_in(&snapshot.culling_reviews, a),
    }
}

fn culling_asset_seen(cc: &Vec<CompanionCullingChange>, j: usize) -> (res: bool)
    requires
        j < cc@.len(),
    ensures
        res == exists|k: int| 0 <= k < j && (#[trigger] cc@[k]).asset_id == cc@[j as int].asset_id,
{
    let a = cc[j].asset_id;
    let mut k: usize = 0;
    while k < j
        invariant
            k <= j < cc@.len(),
            a == cc@[j as int].asset_id,
            forall|m: int| 0 <= m < k ==> (#[trigger] cc@[m]).asset_id != a,
        decreases j - k,
    {
        if cc[k].asset_id == a {
            assert(cc@[k as int].asset_id == a);
            return true;
        }
        k += 1;
    }
    false
}

fn reference_group_seen(rc: &Vec<CompanionReferenceChange>, j: usize) -> (res: bool)
    requires
        j < rc@.len(),
    ensures
        res == exists|k: int| 0 <= k < j && (#[trigger] rc@[k]).group_id == rc@[j as int].group_id,
{
    let g = rc[j].group_id;
    let mut k: usize = 0;
    while k < j
        invariant
            k <= j < rc@.len(),
            g == rc@[j as int].group_id,
            forall|m: int| 0 <= m < k ==> (#[trigger] rc@[m]).group_id != g,
        decreases j - k,
    {
        if rc[k].group_id == g {
            assert(rc@[k as int].group_id == g);
            return true;
        }
        k += 1;
    }
    false
}

fn is_last_binding(refs: &Vec<CompanionReferenceState>, i: usize) -> (res: bool)
    requires
        i < refs@.len(),
    ensures
        res == forall|q: int| i < q < refs@.len() ==> (#[trigger] refs@[q]).binding.group_id != refs@[i as int].binding.group_id,
{
    let g = refs[i].binding.group_id;
    let n = refs.len();
    let mut m: usize = i + 1;
    while m < refs.len()
        invariant
            i < m <= refs@.len(),
            g == refs@[i as int].binding.group_id,
            forall|q: int| i < q < m ==> (#[trigger] refs@[q]).binding.group_id != g,
        decreases refs@.len() - m,
    {
        if refs[m].binding.group_id == g {
            assert(refs@[m as int].binding.group_id == g);
            return false;
        }
        m += 1;
    }
    true
}

/// Checks the changes of a patch against the snapshot it was made from (see
/// `patch_changes_valid`) and reports how many of each kind it holds.
pub fn check_patch_changes(snapshot: &CompanionSnapshot, patch: &CompanionDecisionPatch) -> (res: Result<CompanionPatchApplyReport, CompanionError>)
    ensures
        res is Ok <==> patch_changes_valid(*snapshot, *patch),
        res matches Ok(r) ==> r.culling_changes_applied == patch.culling_changes@.len()
            && r.reference_changes_applied == patch.reference_changes@.len(),
        res matches Err(e) ==> patch_error_holds(*snapshot, *patch, e),
{
    let assets = asset_id_list(snapshot);
    let cc = &patch.culling_changes;
    let mut j: usize = 0;
    while j < cc.len()
        invariant
            j <= cc@.len(),
            assets@ == asset_ids_of(*snapshot),
            cc == &patch.culling_changes,
            forall|k: int| 0 <= k < j ==> #[trigger] culling_change_ok(*snapshot, cc@, k),
        decreases cc@.len() - j,
    {
        let a = cc[j].asset_id;
        if !id_listed(assets.as_slice(), a) {
            assert(!culling_change_ok(*snapshot, cc@, j as int));
            return Err(CompanionError::UnknownAsset(a));
        }
        if culling_asset_seen(cc, j) {
            assert(!culling_change_ok(*snapshot, cc@, j as int));
            return Err(CompanionError::DuplicateCullingChange(a));
        }
        assert(culling_change_ok(*snapshot, cc@, j as int));
        j += 1;
    }
    let rc = &patch.reference_changes;
    let mut j: usize = 0;
    while j < rc.len()
        invariant
            j <= rc@.len(),
            cc == &patch.culling_changes,
            rc == &patch.reference_changes,
            forall|k: int| 0 <= k < cc@.len() ==> #[trigger] culling_change_ok(*snapshot, cc@, k),
            forall|k: int| 0 <= k < j ==> #[trigger] reference_change_ok(*snapshot, rc@, k),
        decreases rc@.len() - j,
    {
        let g = rc[j].group_id;
        let gpos = match group_position(snapshot, g) {
            None => {
                assert(!reference_change_ok(*snapshot, rc@, j as int));
                return Err(CompanionError::UnknownGroup(g));
            },
            Some(p) => p,
        };
        assert(known_group(*snapshot, g)) by {
            assert(group_ids_of(*snapshot)[gpos as int] == g);
        }
        if reference_group_seen(rc, j) {
            assert(!reference_change_ok(*snapshot, rc@, j as int));
            return Err(CompanionError::DuplicateReferenceChange(g));
        }
        match rc[j].selected_reference_asset_id {
            Some(a) => {
                if !member_of(snapshot, gpos, g, a) {
                    assert(!reference_change_ok(*snapshot, rc@, j as int));
                    return Err(CompanionError::ReferenceOutsideGroup { group_id: g, asset_id: a });
                }
            },
            None => {},
        }
        assert(reference_change_ok(*snapshot, rc@, j as int));
        j += 1;
    }
    let refs = &snapshot.references;
    let mut i: usize = 0;
    while i < refs.len()
        invariant
            i <= refs@.len(),
            refs == &snapshot.references,
            cc == &patch.culling_changes,
            rc == &patch.reference_changes,
            forall|k: int| 0 <= k < cc@.len() ==> #[trigger] culling_change_ok(*snapshot, cc@, k),
            forall|k: int| 0 <= k < rc@.len() ==> #[trigger] reference_change_ok(*snapshot, rc@, k),
            forall|k: int| 0 <= k < i
                && (forall|m: int| k < m < refs@.len() ==> (#[trigger] refs@[m]).binding.group_id != refs@[k].binding.group_id)
                && reference_change_for(rc@, refs@[k].binding.group_id) is None
                ==> final_decision(snapshot.culling_reviews@, cc@, (#[trigger] refs@[k]).binding.selected_reference_asset_id)
                    != Some(CullingUserDecision::Reject),
        decreases refs@.len() - i,
    {
        let b = refs[i].binding;
        let last = is_last_binding(refs, i);
        let unchanged = reference_change_in(rc, b.group_id).is_none();
        if last && unchanged {
            if final_decision_of(snapshot, patch, b.selected_reference_asset_id) == Some(CullingUserDecision::Reject) {
                proof {
                    lemma_binding_index(refs@, i as int);
                    assert(rejected_reference(*snapshot, *patch, b.group_id, b.selected_reference_asset_id));
                }
                return Err(CompanionError::RejectedReference { group_id: b.group_id, asset_id: b.selected_reference_asset_id });
            }
        }
        i += 1;
    }
    let mut j: usize = 0;
    while j < rc.len()
        invariant
            j <= rc@.len(),
            refs == &snapshot.references,
            cc == &patch.culling_changes,
            rc == &patch.reference_changes,
            forall|k: int| 0 <= k < cc@.len() ==> #[trigger] culling_change_ok(*snapshot, cc@, k),
            forall|k: int| 0 <= k < rc@.len() ==> #[trigger] reference_change_ok(*snapshot, rc@, k),
            forall|k: int| 0 <= k < refs@.len()
                && (forall|m: int| k < m < refs@.len() ==> (#[trigger] refs@[m]).binding.group_id != refs@[k].binding.group_id)
                && reference_change_for(rc@, refs@[k].binding.group_id) is None
                ==> final_decision(snapshot.culling_reviews@, cc@, (#[trigger] refs@[k]).binding.selected_reference_asset_id)
                    != Some(CullingUserDecision::Reject),
            forall|k: int| 0 <= k < j && (#[trigger] rc@[k]).selected_reference_asset_id is Some
                ==> final_decision(snapshot.culling_reviews@, cc@, rc@[k].selected_reference_asset_id->0)
                    != Some(CullingUserDecision::Reject),
        decreases rc@.len() - j,
    {
        match rc[j].selected_reference_asset_id {
            Some(a) => {
                if final_decision_of(snapshot, patch, a) == Some(CullingUserDecision::Reject) {
                    let g = rc[j].group_id;
                    proof {
                        reference_change_unique(rc@, *snapshot, j as int);
                        assert(rejected_reference(*snapshot, *patch, g, a));
                    }
                    return Err(CompanionError::RejectedReference { group_id: g, asset_id: a });
                }
            },
            None => {},
        }
        j += 1;
    }
    proof {
        assert forall|g: u128, a: u128| !#[trigger] rejected_reference(*snapshot, *patch, g, a) by {
            lemma_reference_change_index(rc@, g);
            if reference_change_for(rc@, g) is Some {
                let j = choose|j: int| 0 <= j < rc@.len() && (#[trigger] rc@[j]).group_id == g
                    && rc@[j].selected_reference_asset_id == reference_change_for(rc@, g)->0;
                reference_change_unique(rc@, *snapshot, j);
            } else {
                lemma_binding_exists(snapshot.references@, g);
                if snapshot_binding(snapshot.references@, g) is Some {
                    let bb = snapshot_binding(snapshot.references@, g)->0;
                    let k = choose|k: int| 0 <= k < refs@.len() && (#[trigger] refs@[k]).binding == bb
                        && bb.group_id == g
                        && forall|q: int| k < q < refs@.len() ==> (#[trigger] refs@[q]).binding.group_id != g;
                    assert(refs@[k].binding.group_id == g);
                }
            }
        }
    }
    Ok(CompanionPatchApplyReport { culling_changes_applied: cc.len(), reference_changes_applied: rc.len() })
}

/// With every reference change naming its group once, the change for a group
/// is the one that names it.
// ----- the whole of applying a patch -----

/// A write to the workstation's stores that an accepted patch asks for.
#[derive(PartialEq, Eq, Structural, Clone, Copy, Debug)]
pub enum CompanionStoreWrite {
    SetDecision { asset_id: u128, decision: CullingUserDecision },
    ClearDecision(u128),
    SetReference { group_id: u128, asset_id: u128 },
    ClearReference(u128),
}

/// What an accepted patch does: its report, and the writes to perform, in order.
pub struct CompanionPatchPlan {
    pub report: CompanionPatchApplyReport,
    pub writes: Vec<CompanionStoreWrite>,
}

/// Why a patch does not belong to a snapshot, if it does not (see
/// `check_patch_identity`).
pub open spec fn identity_problem(s: CompanionSnapshot, patch: CompanionDecisionPatch) -> Option<CompanionError> {
    if s.schema_version != COMPANION_SNAPSHOT_SCHEMA_VERSION {
        Some(CompanionError::UnsupportedSchema(s.schema_version))
    } else if patch.schema_version != COMPANION_SNAPSHOT_SCHEMA_VERSION {
        Some(CompanionError::UnsupportedSchema(patch.schema_version))
    } else if patch.base_snapshot_id != s.snapshot_id {
        Some(CompanionError::SnapshotMismatch { expected: s.snapshot_id, actual: patch.base_snapshot_id })
    } else if patch.batch_id != s.batch_id {
        Some(CompanionError::BatchMismatch { expected: s.batch_id, actual: patch.batch_id })
    } else {
        None
    }
}

/// The workstation's current decision for each of `assets`, and its binding
/// for each of `groups`, are those of the snapshot.
pub open spec fn unchanged_since_snapshot(
    s: CompanionSnapshot,
    assets: Seq<u128>,
    decisions: Seq<Option<CullingUserDecision>>,
    groups: Seq<u128>,
    bindings: Seq<Option<GroupReferenceBinding>>,
) -> bool {
    &&& forall|i: int| 0 <= i < assets.len() ==> #[trigger] decisions[i] == latest_decision(s.culling_reviews@, assets[i])
    &&& forall|i: int| 0 <= i < groups.len() ==> #[trigger] bindings[i] == snapshot_binding(s.references@, groups[i])
}

/// `e` reports an asset or group of the lists that changed on the workstation.
pub open spec fn concurrent_error(
    s: CompanionSnapshot,
    assets: Seq<u128>,
    decisions: Seq<Option<CullingUserDecision>>,
    groups: Seq<u128>,
    bindings: Seq<Option<GroupReferenceBinding>>,
    e: CompanionError,
) -> bool {
    ||| exists|i: int| 0 <= i < assets.len() && #[trigger] decisions[i] != latest_decision(s.culling_reviews@, assets[i])
        && e == CompanionError::ConcurrentCullingChange(assets[i])
    ||| exists|i: int| 0 <= i < groups.len() && #[trigger] bindings[i] != snapshot_binding(s.references@, groups[i])
        && e == CompanionError::ConcurrentReferenceChange(groups[i])
}

pub open spec fn culling_write(c: CompanionCullingChange) -> CompanionStoreWrite {
    match c.decision {
        Some(d) => CompanionStoreWrite::SetDecision { asset_id: c.asset_id, decision: d },
        None => CompanionStoreWrite::ClearDecision(c.asset_id),
    }
}

pub open spec fn reference_write(c: CompanionReferenceChange) -> CompanionStoreWrite {
    match c.selected_reference_asset_id {
        Some(a) => CompanionStoreWrite::SetReference { group_id: c.group_id, asset_id: a },
        None => CompanionStoreWrite::ClearReference(c.group_id),
    }
}

/// The writes of a patch: each culling change, then each reference change,
/// in patch order.
pub open spec fn patch_writes(patch: CompanionDecisionPatch) -> Seq<CompanionStoreWrite> {
    patch.culling_changes@.map_values(|c: CompanionCullingChange| culling_write(c))
        + patch.reference_changes@.map_values(|c: CompanionReferenceChange| reference_write(c))
}

fn patch_write_list(patch: &CompanionDecisionPatch) -> (res: Vec<CompanionStoreWrite>)
    ensures
        res@ == patch_writes(*patch),
{
    let mut out: Vec<CompanionStoreWrite> = Vec::new();
    let mut i: usize = 0;
    while i < patch.culling_changes.len()
        invariant
            i <= patch.culling_changes@.len(),
            out@ == patch.culling_changes@.subrange(0, i as int).map_values(|c: CompanionCullingChange| culling_write(c)),
        decreases patch.culling_changes@.len() - i,
    {
        let c = patch.culling_changes[i];
        let w = match c.decision {
            Some(d) => CompanionStoreWrite::SetDecision { asset_id: c.asset_id, decision: d },
            None => CompanionStoreWrite::ClearDecision(c.asset_id),
        };
        out.push(w);
        i += 1;
        assert(out@ =~= patch.culling_changes@.subrange(0, i as int).map_values(|c: CompanionCullingChange| culling_write(c)));
    }
    assert(patch.culling_changes@.subrange(0, i as int) =~= patch.culling_changes@);
    let ghost head = out@;
    let mut j: usize = 0;
    while j < patch.reference_changes.len()
        invariant
            j <= patch.reference_changes@.len(),
            out@ == head + patch.reference_changes@.subrange(0, j as int).map_values(|c: CompanionReferenceChange| reference_write(c)),
        decreases patch.reference_changes@.len() - j,
    {
        let c = patch.reference_changes[j];
        let w = match c.selected_reference_asset_id {
            Some(a) => CompanionStoreWrite::SetReference { group_id: c.group_id, asset_id: a },
            None => CompanionStoreWrite::ClearReference(c.group_id),
        };
        out.push(w);
        j += 1;
        assert(out@ =~= head + patch.reference_changes@.subrange(0, j as int).map_values(|c: CompanionReferenceChange| reference_write(c)));
    }
    assert(patch.reference_changes@.subrange(0, j as int) =~= patch.reference_changes@);
    out
}

/// Decides a patch from the companion. `current_decisions[i]` is the
/// workstation's decision for `assets[i]` and `current_bindings[i]` its
/// binding for `groups[i]`, read for the assets and groups the patch touches
/// (`touched_assets`, `touched_groups`). The checks run in turn: the patch
/// must belong to the snapshot, nothing it touches may have changed on the
/// workstation, and its changes must be sound. Only an accepted patch yields
/// writes: exactly its changes, in order; a refused one yields none.
pub fn plan_companion_patch(
    snapshot: &CompanionSnapshot,
    patch: &CompanionDecisionPatch,
    assets: &Vec<u128>,
    current_decisions: &Vec<Option<CullingUserDecision>>,
    groups: &Vec<u128>,
    current_bindings: &Vec<Option<GroupReferenceBinding>>,
) -> (res: Result<CompanionPatchPlan, CompanionError>)
    requires
        current_decisions@.len() == assets@.len(),
        current_bindings@.len() == groups@.len(),
    ensures
        identity_problem(*snapshot, *patch) matches Some(e) ==> (res matches Err(f) && f == e),
        identity_problem(*snapshot, *patch) is None
            && !unchanged_since_snapshot(*snapshot, assets@, current_decisions@, groups@, current_bindings@)
            ==> (res matches Err(e)
                && concurrent_error(*snapshot, assets@, current_decisions@, groups@, current_bindings@, e)),
        identity_problem(*snapshot, *patch) is None
            && unchanged_since_snapshot(*snapshot, assets@, current_decisions@, groups@, current_bindings@)
            ==> (res is Ok <==> patch_changes_valid(*snapshot, *patch))
                && (res matches Err(e) ==> patch_error_holds(*snapshot, *patch, e)),
        res matches Ok(plan) ==> {
            &&& identity_problem(*snapshot, *patch) is None
            &&& unchanged_since_snapshot(*snapshot, assets@, current_decisions@, groups@, current_bindings@)
            &&& patch_changes_valid(*snapshot, *patch)
            &&& plan.report.culling_changes_applied == patch.culling_changes@.len()
            &&& plan.report.reference_changes_applied == patch.reference_changes@.len()
            &&& plan.writes@ == patch_writes(*patch)
        },
{
    match check_patch_identity(snapshot, patch) {
        Err(e) => return Err(e),
        Ok(()) => {},
    }
    match check_concurrent_state(snapshot, assets, current_decisions, groups, current_bindings) {
        Err(e) => return Err(e),
        Ok(()) => {},
    }
    let report = match check_patch_changes(snapshot, patch) {
        Err(e) => return Err(e),
        Ok(r) => r,
    };
    let writes = patch_write_list(patch);
    Ok(CompanionPatchPlan { report, writes })
}

proof fn reference_change_unique(rc: Seq<CompanionReferenceChange>, s: CompanionSnapshot, j: int)
    requires
        0 <= j < rc.len(),
        forall|k: int| 0 <= k < rc.len() ==> #[trigger] reference_change_ok(s, rc, k),
    ensures
        reference_change_for(rc, rc[j].group_id) == Some(rc[j].selected_reference_asset_id),
    decreases rc.len(),
{
    if j < rc.len() - 1 {
        let last = rc.len() - 1;
        assert(reference_change_ok(s, rc, last));
        assert(rc[last] == rc.last());
        assert(rc.last().group_id != rc[j].group_id);
        let d = rc.drop_last();
        assert forall|k: int| 0 <= k < d.len() implies #[trigger] reference_change_ok(s, d, k) by {
            assert(d[k] == rc[k]);
            assert(reference_change_ok(s, rc, k));
            assert forall|m: int| 0 <= m < k implies (#[trigger] d[m]).group_id != d[k].group_id by {
                assert(d[m] == rc[m]);
            }
        }
        assert(d[j] == rc[j]);
        reference_change_unique(d, s, j);
    } else {
        assert(rc[j] == rc.last());
    }
}

// ----- hydrating a project from a snapshot -----

/// Whether a snapshot is to be hydrated, given the id of the snapshot the
/// batch was already hydrated from: the same snapshot again needs nothing
/// (`false`); another one would replace a baseline whose decisions were not
/// synced yet and is refused; a first one must be consistent.
pub fn hydration_decision(snapshot: &CompanionSnapshot, existing_snapshot_id: Option<u128>) -> (res: Result<bool, CompanionError>)
    ensures
        snapshot.schema_version != COMPANION_SNAPSHOT_SCHEMA_VERSION
            ==> res == Err::<bool, CompanionError>(CompanionError::UnsupportedSchema(snapshot.schema_version)),
        snapshot.schema_version == COMPANION_SNAPSHOT_SCHEMA_VERSION ==> match existing_snapshot_id {
            Some(id) => if id == snapshot.snapshot_id {
                res == Ok::<bool, CompanionError>(false)
            } else {
                res == Err::<bool, CompanionError>(CompanionError::SnapshotReplacementConflict {
                    batch_id: snapshot.batch_id,
                    existing_snapshot_id: id,
                    incoming_snapshot_id: snapshot.snapshot_id,
                })
            },
            None => (res is Ok <==> snapshot_consistent(*snapshot)) && (res matches Ok(b) ==> b)
                && (res matches Err(e) ==> snapshot_error_holds(*snapshot, e)),
        },
{
    if snapshot.schema_version != COMPANION_SNAPSHOT_SCHEMA_VERSION {
        return Err(CompanionError::UnsupportedSchema(snapshot.schema_version));
    }
    match existing_snapshot_id {
        Some(id) => {
            if id == snapshot.snapshot_id {
                Ok(false)
            } else {
                Err(CompanionError::SnapshotReplacementConflict {
                    batch_id: snapshot.batch_id,
                    existing_snapshot_id: id,
                    incoming_snapshot_id: snapshot.snapshot_id,
                })
            }
        },
        None => match validate_snapshot_contents(snapshot) {
            Ok(()) => Ok(true),
            Err(e) => Err(e),
        },
    }
}

/// A file name that cannot leave its directory: `/` and `\` become `_`.
pub open spec fn flat_name(name: Seq<char>) -> Seq<char> {
    Seq::new(name.len(), |i: int| if name[i] == '/' || name[i] == '\\' { '_' } else { name[i] })
}

fn flat_name_chars(name: &[char]) -> (res: Vec<char>)
    ensures
        res@ == flat_name(name@),
{
    let mut out: Vec<char> = Vec::new();
    let mut i: usize = 0;
    while i < name.len()
        invariant
            i <= name@.len(),
            out@ == flat_name(name@).subrange(0, i as int),
        decreases name@.len() - i,
    {
        let c = name[i];
        if c == '/' || c == '\\' {
            out.push('_');
        } else {
            out.push(c);
        }
        i += 1;
        assert(out@ =~= flat_name(name@).subrange(0, i as int));
    }
    assert(flat_name(name@).subrange(0, name@.len() as int) =~= flat_name(name@));
    out
}

pub open spec fn companion_scheme() -> Seq<char> {
    seq!['c', 'o', 'm', 'p', 'a', 'n', 'i', 'o', 'n', ':', '/', '/']
}

/// Where a hydrated asset is said to come from:
/// `companion://<batch id>/<asset id>/<flat file name>`.
pub open spec fn companion_source(batch_id: u128, asset_id: u128, filename: Seq<char>) -> Seq<char> {
    companion_scheme() + id_text_of(batch_id) + seq!['/'] + id_text_of(asset_id) + seq!['/'] + flat_name(filename)
}

pub fn companion_source_path(batch_id: u128, asset: &CompanionAsset) -> (res: String)
    ensures
        res@ == companion_source(batch_id, asset.id, asset.filename@),
{
    let scheme = vec!['c', 'o', 'm', 'p', 'a', 'n', 'i', 'o', 'n', ':', '/', '/'];
    assert(scheme@ =~= companion_scheme());
    let mut text = concat(&scheme, &chars_of(id_text(batch_id).as_str()));
    text.push('/');
    let mut text = concat(&text, &chars_of(id_text(asset.id).as_str()));
    text.push('/');
    let text = concat(&text, &flat_name_chars(&chars_of(asset.filename.as_str())));
    string_of(&text)
}

/// The catalog assets a snapshot hydrates into: the snapshot's assets with a
/// companion source path, in order.
pub fn companion_raw_assets(snapshot: &CompanionSnapshot) -> (res: Vec<RawAsset>)
    ensures
        res@.len() == snapshot.assets@.len(),
        forall|i: int| 0 <= i < res@.len() ==> {
            let a = #[trigger] snapshot.assets@[i];
            let r = res@[i];
            &&& r.id == a.id
            &&& r.source_path@ == companion_source(snapshot.batch_id, a.id, a.filename@)
            &&& r.filename@ == a.filename@
            &&& r.extension@ == a.extension@
            &&& r.camera_id == a.camera_id
            &&& r.capture_time_ms == a.capture_time_ms
            &&& r.file_time_ms == a.file_time_ms
            &&& r.sequence_number == a.sequence_number
        },
{
    let mut out: Vec<RawAsset> = Vec::new();
    let mut i: usize = 0;
    while i < snapshot.assets.len()
        invariant
            i <= snapshot.assets@.len(),
            out@.len() == i,
            forall|k: int| 0 <= k < i ==> {
                let a = #[trigger] snapshot.assets@[k];
                let r = out@[k];
                &&& r.id == a.id
                &&& r.source_path@ == companion_source(snapshot.batch_id, a.id, a.filename@)
                &&& r.filename@ == a.filename@
                &&& r.extension@ == a.extension@
                &&& r.camera_id == a.camera_id
                &&& r.capture_time_ms == a.capture_time_ms
                &&& r.file_time_ms == a.file_time_ms
                &&& r.sequence_number == a.sequence_number
            },
        decreases snapshot.assets@.len() - i,
    {
        let a = &snapshot.assets[i];
        out.push(RawAsset {
            id: a.id,
            source_path: companion_source_path(snapshot.batch_id, a),
            filename: a.filename.clone(),
            extension: a.extension.clone(),
            camera_id: match &a.camera_id {
                Some(c) => Some(c.clone()),
                None => None,
            },
            capture_time_ms: a.capture_time_ms,
            file_time_ms: a.file_time_ms,
            sequence_number: a.sequence_number,
        });
        i += 1;
    }
    out
}

/// The catalog must keep the snapshot's identities: the first asset whose
/// catalogued id differs from the snapshot's is reported.
pub fn check_catalog_identity(expected: &Vec<RawAsset>, actual: &Vec<RawAsset>) -> (res: Result<(), CompanionError>)
    ensures
        res is Ok <==> forall|i: int| 0 <= i < expected@.len() && i < actual@.len() ==> (#[trigger] expected@[i]).id == actual@[i].id,
        res matches Err(e) ==> exists|i: int| 0 <= i < expected@.len() && i < actual@.len()
            && (#[trigger] expected@[i]).id != actual@[i].id
            && (forall|k: int| 0 <= k < i ==> (#[trigger] expected@[k]).id == actual@[k].id)
            && e == (CompanionError::AssetIdentityMismatch { expected: expected@[i].id, actual: actual@[i].id }),
{
    let n = if expected.len() < actual.len() { expected.len() } else { actual.len() };
    let mut i: usize = 0;
    while i < n
        invariant
            n <= expected@.len(),
            n <= actual@.len(),
            n == expected@.len() || n == actual@.len(),
            i <= n,
            forall|k: int| 0 <= k < i ==> (#[trigger] expected@[k]).id == actual@[k].id,
        decreases expected@.len() - i,
    {
        if expected[i].id != actual[i].id {
            return Err(CompanionError::AssetIdentityMismatch { expected: expected[i].id, actual: actual[i].id });
        }
        i += 1;
    }
    Ok(())
}

/// The groups a hydrated project holds: the snapshot's groups, all left
/// replaceable, since the companion runs no grouping of its own.
pub fn companion_groups(snapshot: &CompanionSnapshot) -> (res: Vec<PhotoGroup>)
    ensures
        res@.len() == snapshot.groups@.len(),
        forall|i: int| 0 <= i < res@.len() ==> {
            let g = #[trigger] snapshot.groups@[i];
            &&& res@[i].id == g.id
            &&& res@[i].kind == g.kind
            &&& res@[i].basis == g.basis
            &&& res@[i].asset_ids@ == g.asset_ids@
            &&& !res@[i].manual_locked
        },
{
    let mut out: Vec<PhotoGroup> = Vec::new();
    let mut i: usize = 0;
    while i < snapshot.groups.len()
        invariant
            i <= snapshot.groups@.len(),
            out@.len() == i,
            forall|k: int| 0 <= k < i ==> {
                let g = #[trigger] snapshot.groups@[k];
                &&& out@[k].id == g.id
                &&& out@[k].kind == g.kind
                &&& out@[k].basis == g.basis
                &&& out@[k].asset_ids@ == g.asset_ids@
                &&& !out@[k].manual_locked
            },
        decreases snapshot.groups@.len() - i,
    {
        let mut group = snapshot.groups[i].clone();
        group.manual_locked = false;
        out.push(group);
        i += 1;
    }
    out
}

/// The batch of a hydrated project: the snapshot's batch, with one finished
/// job per asset (in order), each under a fresh id.
pub fn companion_batch(snapshot: &CompanionSnapshot, assets: &Vec<RawAsset>) -> (res: Batch)
    ensures
        res.id == snapshot.batch_id,
        res.name@ == snapshot.batch_name@,
        !res.auto_qa,
        !res.stop_on_error,
        res.items@.len() == assets@.len(),
        forall|i: int| 0 <= i < assets@.len() ==> {
            let item = #[trigger] res.items@[i];
            &&& item.asset_id == Some(assets@[i].id)
            &&& item.source_path@ == assets@[i].source_path@
            &&& item.stage == BatchStage::Done
            &&& item.status == JobStatus::Done
            &&& item.attempts == 0
            &&& item.last_error is None
        },
{
    let mut items: Vec<BatchItem> = Vec::new();
    let mut i: usize = 0;
    while i < assets.len()
        invariant
            i <= assets@.len(),
            items@.len() == i,
            forall|k: int| 0 <= k < i ==> {
                let item = #[trigger] items@[k];
                &&& item.asset_id == Some(assets@[k].id)
                &&& item.source_path@ == assets@[k].source_path@
                &&& item.stage == BatchStage::Done
                &&& item.status == JobStatus::Done
                &&& item.attempts == 0
                &&& item.last_error is None
            },
        decreases assets@.len() - i,
    {
        items.push(BatchItem {
            id: fresh_id(),
            asset_id: Some(assets[i].id),
            source_path: assets[i].source_path.clone(),
            stage: BatchStage::Done,
            status: JobStatus::Done,
            attempts: 0,
            last_error: None,
        });
        i += 1;
    }
    Batch { id: snapshot.batch_id, name: snapshot.batch_name.clone(), items, auto_qa: false, stop_on_error: false }
}

} // verus!
