//! References: which photo a group's look is taken from, and whether one
//! group's style may be reused on another. Both are decided from culling
//! evidence alone; photographer decisions always outrank suggestions.

use vstd::prelude::*;
use crate::classification::SceneTag;
use crate::culling::{has_people, latest_evidence, latest_evidence_index, shows_people, CullingDecision, CullingEvidence};
use crate::culling_store::{latest_decision, latest_decision_in, CullingReview, CullingUserDecision};
use crate::grouping::PhotoGroup;

verus! {

#[derive(PartialEq, Eq, Structural, Clone, Copy, Debug)]
pub enum ReferenceReadinessStatus {
    Ready,
    NeedsCullReview,
    HdrMergeFirst,
}

#[derive(PartialEq, Eq, Structural, Clone, Copy, Debug)]
pub enum ReferenceCandidateSource {
    PhotographerKeep,
    AiKeep,
    PhotographerReview,
    AiReview,
}

#[derive(PartialEq, Eq, Structural, Clone, Copy, Debug)]
pub enum StyleSyncCompatibility {
    Recommended,
    Review,
}

#[derive(PartialEq, Eq, Structural, Clone, Copy, Debug)]
pub enum StyleSyncReason {
    PeopleMatch,
    SharedScene,
    PeopleSceneMismatch,
    SceneMismatch,
    EvidenceIncomplete,
}

// ----- style sync -----

pub struct StyleSyncGroupContext {
    pub group_id: u128,
    pub contains_people: bool,
    pub scene_tags: Vec<SceneTag>,
    pub evidence_complete: bool,
    pub pending_asset_ids: Vec<u128>,
}

pub struct StyleSyncTargetPlan {
    pub target_group_id: u128,
    pub compatibility: StyleSyncCompatibility,
    pub reason: StyleSyncReason,
    pub target_context: StyleSyncGroupContext,
}

pub struct StyleSyncPreflight {
    pub source_context: StyleSyncGroupContext,
    pub targets: Vec<StyleSyncTargetPlan>,
}

/// A photo that still defines the group's look: not rejected by the
/// photographer, and not rejected by a suggestion the photographer left alone.
pub open spec fn style_active(r: CullingEvidence, reviews: Seq<CullingReview>) -> bool {
    let user = latest_decision(reviews, r.asset_id);
    !(user == Some(CullingUserDecision::Reject) || (user is None && r.decision == CullingDecision::RejectSuggestion))
}

/// `acc` followed by the tags of `tags` it does not hold yet, each once, in
/// first-seen order.
pub open spec fn add_tags(acc: Seq<SceneTag>, tags: Seq<SceneTag>) -> Seq<SceneTag>
    decreases tags.len(),
{
    if tags.len() == 0 {
        acc
    } else {
        let before = add_tags(acc, tags.drop_last());
        if before.contains(tags.last()) {
            before
        } else {
            before.push(tags.last())
        }
    }
}

/// What the first `n` recommendations say about a group's look: its scene
/// tags, whether it shows people, how many photos are active, and whether
/// every active photo has scene or people evidence.
pub open spec fn style_tags(recs: Seq<CullingEvidence>, reviews: Seq<CullingReview>, n: int) -> Seq<SceneTag>
    decreases n,
{
    if n <= 0 {
        seq![]
    } else if style_active(recs[n - 1], reviews) {
        add_tags(style_tags(recs, reviews, n - 1), recs[n - 1].scene_tags@)
    } else {
        style_tags(recs, reviews, n - 1)
    }
}

pub open spec fn active_count(recs: Seq<CullingEvidence>, reviews: Seq<CullingReview>, n: int) -> nat
    decreases n,
{
    if n <= 0 {
        0
    } else if style_active(recs[n - 1], reviews) {
        active_count(recs, reviews, n - 1) + 1
    } else {
        active_count(recs, reviews, n - 1)
    }
}

pub open spec fn style_people(recs: Seq<CullingEvidence>, reviews: Seq<CullingReview>) -> bool {
    exists|i: int| 0 <= i < recs.len() && style_active(recs[i], reviews) && shows_people(#[trigger] recs[i])
}

pub open spec fn style_evidence_complete(recs: Seq<CullingEvidence>, reviews: Seq<CullingReview>) -> bool {
    forall|i: int| 0 <= i < recs.len() && style_active(recs[i], reviews)
        ==> (#[trigger] recs[i]).scene_tags@.len() > 0 || shows_people(recs[i])
}

/// Pending photos the photographer has not rejected.
pub open spec fn open_pending(pending: Seq<u128>, reviews: Seq<CullingReview>) -> Seq<u128> {
    pending.filter(|a: u128| latest_decision(reviews, a) != Some(CullingUserDecision::Reject))
}

fn add_tags_exec(acc: &mut Vec<SceneTag>, tags: &Vec<SceneTag>)
    ensures
        final(acc)@ == add_tags(old(acc)@, tags@),
{
    let ghost start = acc@;
    let mut i: usize = 0;
    assert(tags@.subrange(0, 0) =~= Seq::<SceneTag>::empty());
    while i < tags.len()
        invariant
            i <= tags@.len(),
            acc@ == add_tags(start, tags@.subrange(0, i as int)),
        decreases tags@.len() - i,
    {
        let tag = tags[i];
        let mut seen = false;
        let mut k: usize = 0;
        while k < acc.len()
            invariant
                k <= acc@.len(),
                seen == exists|m: int| 0 <= m < k && acc@[m] == tag,
            decreases acc@.len() - k,
        {
            if acc[k] == tag {
                seen = true;
            }
            k += 1;
        }
        assert(tags@.subrange(0, i + 1).drop_last() =~= tags@.subrange(0, i as int));
        if !seen {
            acc.push(tag);
        } else {
            proof {
                let m = choose|m: int| 0 <= m < acc@.len() && acc@[m] == tag;
                assert(acc@.contains(tag));
            }
        }
        i += 1;
    }
    assert(tags@.subrange(0, tags@.len() as int) =~= tags@);
}

/// Summarises one group's culling evidence for reusing its style. Rejected
/// photos do not define the look: a photographer Reject always drops out, and
/// so does a reject suggestion the photographer left alone.
pub fn build_style_sync_group_context(
    group_id: u128,
    recommendations: &Vec<CullingEvidence>,
    pending_asset_ids: &Vec<u128>,
    reviews: &Vec<CullingReview>,
) -> (res: StyleSyncGroupContext)
    ensures
        res.group_id == group_id,
        res.contains_people == style_people(recommendations@, reviews@),
        res.scene_tags@ == style_tags(recommendations@, reviews@, recommendations@.len() as int),
        res.pending_asset_ids@ == open_pending(pending_asset_ids@, reviews@),
        res.evidence_complete == (active_count(recommendations@, reviews@, recommendations@.len() as int) > 0
            && style_evidence_complete(recommendations@, reviews@) && res.pending_asset_ids@.len() == 0),
{
    let mut scene_tags: Vec<SceneTag> = Vec::new();
    let mut contains_people = false;
    let mut active: usize = 0;
    let mut complete = true;
    let mut i: usize = 0;
    while i < recommendations.len()
        invariant
            i <= recommendations@.len(),
            scene_tags@ == style_tags(recommendations@, reviews@, i as int),
            active == active_count(recommendations@, reviews@, i as int),
            active <= i,
            contains_people == exists|k: int| 0 <= k < i && style_active(recommendations@[k], reviews@)
                && shows_people(#[trigger] recommendations@[k]),
            complete == forall|k: int| 0 <= k < i && style_active(recommendations@[k], reviews@)
                ==> (#[trigger] recommendations@[k]).scene_tags@.len() > 0 || shows_people(recommendations@[k]),
        decreases recommendations@.len() - i,
    {
        let r = &recommendations[i];
        let user = latest_decision_in(reviews, r.asset_id);
        let rejected = match user {
            Some(d) => d == CullingUserDecision::Reject,
            None => r.decision == CullingDecision::RejectSuggestion,
        };
        if !rejected {
            active += 1;
            let people = has_people(r);
            if people {
                contains_people = true;
            }
            add_tags_exec(&mut scene_tags, &r.scene_tags);
            if r.scene_tags.len() == 0 && !people {
                complete = false;
            }
        }
        i += 1;
    }
    let mut pending: Vec<u128> = Vec::new();
    let mut j: usize = 0;
    while j < pending_asset_ids.len()
        invariant
            j <= pending_asset_ids@.len(),
            pending@ == open_pending(pending_asset_ids@.take(j as int), reviews@),
        decreases pending_asset_ids@.len() - j,
    {
        proof {
            reveal_with_fuel(Seq::filter, 1);
            assert(pending_asset_ids@.take(j + 1).drop_last() =~= pending_asset_ids@.take(j as int));
        }
        let a = pending_asset_ids[j];
        if latest_decision_in(reviews, a) != Some(CullingUserDecision::Reject) {
            pending.push(a);
        }
        j += 1;
    }
    assert(pending_asset_ids@.take(pending_asset_ids@.len() as int) =~= pending_asset_ids@);
    let evidence_complete = active > 0 && complete && pending.len() == 0;
    StyleSyncGroupContext { group_id, contains_people, scene_tags, evidence_complete, pending_asset_ids: pending }
}

proof fn lemma_style_without(recs: Seq<CullingEvidence>, reviews: Seq<CullingReview>, i: int, n: int)
    requires
        0 <= i < recs.len(),
        0 <= n <= recs.len(),
        !style_active(recs[i], reviews),
    ensures
        n <= i ==> style_tags(recs.remove(i), reviews, n) == style_tags(recs, reviews, n)
            && active_count(recs.remove(i), reviews, n) == active_count(recs, reviews, n),
        n > i ==> style_tags(recs.remove(i), reviews, n - 1) == style_tags(recs, reviews, n)
            && active_count(recs.remove(i), reviews, n - 1) == active_count(recs, reviews, n),
    decreases n,
{
    let t = recs.remove(i);
    if n > 0 {
        lemma_style_without(recs, reviews, i, n - 1);
        if n <= i {
            assert(t[n - 1] == recs[n - 1]);
        } else if n > i + 1 {
            assert(t[n - 2] == recs[n - 1]);
        }
    }
}

/// A photo that is rejected, by the photographer or by a suggestion the
/// photographer left alone, does not define a group's look: removing it from
/// the recommendations leaves the group's scene tags, whether it shows
/// people, how many photos define its look and whether their evidence is
/// complete all unchanged.
pub proof fn rejected_photo_leaves_style_unchanged(recs: Seq<CullingEvidence>, reviews: Seq<CullingReview>, i: int)
    requires
        0 <= i < recs.len(),
        latest_decision(reviews, recs[i].asset_id) == Some(CullingUserDecision::Reject)
            || (latest_decision(reviews, recs[i].asset_id) is None
                && recs[i].decision == CullingDecision::RejectSuggestion),
    ensures
        style_tags(recs.remove(i), reviews, recs.len() - 1) == style_tags(recs, reviews, recs.len() as int),
        active_count(recs.remove(i), reviews, recs.len() - 1) == active_count(recs, reviews, recs.len() as int),
        style_people(recs.remove(i), reviews) == style_people(recs, reviews),
        style_evidence_complete(recs.remove(i), reviews) == style_evidence_complete(recs, reviews),
{
    let t = recs.remove(i);
    lemma_style_without(recs, reviews, i, recs.len() as int);
    if style_people(recs, reviews) {
        let k = choose|k: int| 0 <= k < recs.len() && style_active(recs[k], reviews) && shows_people(#[trigger] recs[k]);
        if k < i {
            assert(t[k] == recs[k]);
        } else {
            assert(t[k - 1] == recs[k]);
        }
    }
    if style_people(t, reviews) {
        let k = choose|k: int| 0 <= k < t.len() && style_active(t[k], reviews) && shows_people(#[trigger] t[k]);
        if k < i {
            assert(t[k] == recs[k]);
        } else {
            assert(t[k] == recs[k + 1]);
        }
    }
    if !style_evidence_complete(recs, reviews) {
        let k = choose|k: int| 0 <= k < recs.len() && style_active(recs[k], reviews)
            && !((#[trigger] recs[k]).scene_tags@.len() > 0 || shows_people(recs[k]));
        if k < i {
            assert(t[k] == recs[k]);
        } else {
            assert(t[k - 1] == recs[k]);
        }
    }
    if !style_evidence_complete(t, reviews) {
        let k = choose|k: int| 0 <= k < t.len() && style_active(t[k], reviews)
            && !((#[trigger] t[k]).scene_tags@.len() > 0 || shows_people(t[k]));
        if k < i {
            assert(t[k] == recs[k]);
        } else {
            assert(t[k] == recs[k + 1]);
        }
    }
}

pub open spec fn shares_scene(source: Seq<SceneTag>, target: Seq<SceneTag>) -> bool {
    exists|i: int| 0 <= i < source.len() && target.contains(#[trigger] source[i])
}

/// Whether a group's style can be reused on another, and why: incomplete
/// evidence on either side always needs review; people match people; people
/// and scenes never match; scenes match when they share a tag.
pub open spec fn compatibility_of(source: StyleSyncGroupContext, target: StyleSyncGroupContext) -> (StyleSyncCompatibility, StyleSyncReason) {
    if !source.evidence_complete || !target.evidence_complete {
        (StyleSyncCompatibility::Review, StyleSyncReason::EvidenceIncomplete)
    } else if source.contains_people && target.contains_people {
        (StyleSyncCompatibility::Recommended, StyleSyncReason::PeopleMatch)
    } else if source.contains_people != target.contains_people {
        (StyleSyncCompatibility::Review, StyleSyncReason::PeopleSceneMismatch)
    } else if shares_scene(source.scene_tags@, target.scene_tags@) {
        (StyleSyncCompatibility::Recommended, StyleSyncReason::SharedScene)
    } else {
        (StyleSyncCompatibility::Review, StyleSyncReason::SceneMismatch)
    }
}

fn tag_listed(tags: &Vec<SceneTag>, tag: SceneTag) -> (res: bool)
    ensures
        res == tags@.contains(tag),
{
    let mut i: usize = 0;
    while i < tags.len()
        invariant
            i <= tags@.len(),
            forall|k: int| 0 <= k < i ==> tags@[k] != tag,
        decreases tags@.len() - i,
    {
        if tags[i] == tag {
            assert(tags@[i as int] == tag);
            return true;
        }
        i += 1;
    }
    false
}

pub fn style_sync_compatibility(source: &StyleSyncGroupContext, target: &StyleSyncGroupContext) -> (res: (StyleSyncCompatibility, StyleSyncReason))
    ensures
        res == compatibility_of(*source, *target),
{
    if !source.evidence_complete || !target.evidence_complete {
        return (StyleSyncCompatibility::Review, StyleSyncReason::EvidenceIncomplete);
    }
    if source.contains_people && target.contains_people {
        return (StyleSyncCompatibility::Recommended, StyleSyncReason::PeopleMatch);
    }
    if source.contains_people != target.contains_people {
        return (StyleSyncCompatibility::Review, StyleSyncReason::PeopleSceneMismatch);
    }
    let mut i: usize = 0;
    while i < source.scene_tags.len()
        invariant
            i <= source.scene_tags@.len(),
            source.evidence_complete && target.evidence_complete,
            !source.contains_people && !target.contains_people,
            forall|k: int| 0 <= k < i ==> !target.scene_tags@.contains(#[trigger] source.scene_tags@[k]),
        decreases source.scene_tags@.len() - i,
    {
        if tag_listed(&target.scene_tags, source.scene_tags[i]) {
            assert(target.scene_tags@.contains(source.scene_tags@[i as int]));
            return (StyleSyncCompatibility::Recommended, StyleSyncReason::SharedScene);
        }
        i += 1;
    }
    (StyleSyncCompatibility::Review, StyleSyncReason::SceneMismatch)
}

/// Evidence that is not complete never lets a style be reused without review.
pub proof fn incomplete_evidence_needs_review(source: StyleSyncGroupContext, target: StyleSyncGroupContext)
    requires
        !source.evidence_complete || !target.evidence_complete,
    ensures
        compatibility_of(source, target).0 == StyleSyncCompatibility::Review,
{
}

/// The style of one group checked against each target group, in order.
pub fn build_style_sync_preflight(source_context: StyleSyncGroupContext, target_contexts: Vec<StyleSyncGroupContext>) -> (res: StyleSyncPreflight)
    ensures
        res.source_context == source_context,
        res.targets@.len() == target_contexts@.len(),
        forall|i: int| 0 <= i < target_contexts@.len() ==> {
            let t = #[trigger] res.targets@[i];
            &&& t.target_context == target_contexts@[i]
            &&& t.target_group_id == target_contexts@[i].group_id
            &&& (t.compatibility, t.reason) == compatibility_of(source_context, target_contexts@[i])
        },
{
    let ghost originals = target_contexts@;
    let mut remaining = target_contexts;
    let mut targets: Vec<StyleSyncTargetPlan> = Vec::new();
    while remaining.len() > 0
        invariant
            targets@.len() + remaining@.len() == originals.len(),
            remaining@ == originals.subrange(targets@.len() as int, originals.len() as int),
            forall|i: int| 0 <= i < targets@.len() ==> {
                let t = #[trigger] targets@[i];
                &&& t.target_context == originals[i]
                &&& t.target_group_id == originals[i].group_id
                &&& (t.compatibility, t.reason) == compatibility_of(source_context, originals[i])
            },
        decreases remaining@.len(),
    {
        let target_context = remaining.remove(0);
        let (compatibility, reason) = style_sync_compatibility(&source_context, &target_context);
        targets.push(StyleSyncTargetPlan { target_group_id: target_context.group_id, compatibility, reason, target_context });
        assert(remaining@ =~= originals.subrange(targets@.len() as int, originals.len() as int));
    }
    StyleSyncPreflight { source_context, targets }
}

// ----- reference readiness -----

/// A photo that may become a group's reference, with what ranks it.
#[derive(PartialEq, Eq, Structural, Clone, Copy, Debug)]
pub struct ReferenceCandidate {
    pub asset_id: u128,
    pub source: ReferenceCandidateSource,
    pub quality_key: i64,
    pub group_rank: usize,
    pub position: usize,
}

pub struct ReferenceReadinessPlan {
    pub group_id: u128,
    pub status: ReferenceReadinessStatus,
    pub suggested_asset_id: Option<u128>,
    pub candidate_source: Option<ReferenceCandidateSource>,
    /// The leading candidate, whose quality and scene tags the plan reports.
    pub candidate_asset_id: Option<u128>,
    pub candidate_scene_tags: Vec<SceneTag>,
    pub contains_people: bool,
    pub pending_asset_ids: Vec<u128>,
    pub excluded_asset_ids: Vec<u128>,
    pub eligible_candidate_ids: Vec<u128>,
}

pub open spec fn priority(source: ReferenceCandidateSource) -> int {
    match source {
        ReferenceCandidateSource::PhotographerKeep => 0,
        ReferenceCandidateSource::AiKeep => 1,
        ReferenceCandidateSource::PhotographerReview => 2,
        ReferenceCandidateSource::AiReview => 3,
    }
}

pub fn reference_candidate_priority(source: ReferenceCandidateSource) -> (res: u8)
    ensures
        res == priority(source),
{
    match source {
        ReferenceCandidateSource::PhotographerKeep => 0,
        ReferenceCandidateSource::AiKeep => 1,
        ReferenceCandidateSource::PhotographerReview => 2,
        ReferenceCandidateSource::AiReview => 3,
    }
}

/// How a photo enters the reference choice: the photographer's decision when
/// there is one (a Reject keeps it out), else the suggestion (a reject
/// suggestion keeps it out); a photo with neither is no candidate.
pub open spec fn candidate_source(user: Option<CullingUserDecision>, rec: Option<CullingEvidence>) -> Option<ReferenceCandidateSource> {
    match user {
        Some(CullingUserDecision::Reject) => None,
        Some(CullingUserDecision::Keep) => Some(ReferenceCandidateSource::PhotographerKeep),
        Some(CullingUserDecision::Review) => Some(ReferenceCandidateSource::PhotographerReview),
        None => match rec {
            Some(r) => match r.decision {
                CullingDecision::Keep => Some(ReferenceCandidateSource::AiKeep),
                CullingDecision::Review => Some(ReferenceCandidateSource::AiReview),
                CullingDecision::RejectSuggestion => None,
            },
            None => None,
        },
    }
}

/// A photo explicitly kept out of the reference choice.
pub open spec fn excluded_photo(user: Option<CullingUserDecision>, rec: Option<CullingEvidence>) -> bool {
    ||| user == Some(CullingUserDecision::Reject)
    ||| user is None && (rec matches Some(r) && r.decision == CullingDecision::RejectSuggestion)
}

pub open spec fn candidate_at(ids: Seq<u128>, recs: Seq<CullingEvidence>, reviews: Seq<CullingReview>, missing_key: i64, p: int) -> Option<ReferenceCandidate> {
    let a = ids[p];
    let rec = latest_evidence(recs, a);
    match candidate_source(latest_decision(reviews, a), rec) {
        None => None,
        Some(source) => Some(ReferenceCandidate {
            asset_id: a,
            source,
            quality_key: match rec {
                Some(r) => r.quality_key,
                None => missing_key,
            },
            group_rank: match rec {
                Some(r) => r.group_rank,
                None => usize::MAX,
            },
            position: p as usize,
        }),
    }
}

/// The candidates among the first `n` photos, in group order.
pub open spec fn candidates_upto(ids: Seq<u128>, recs: Seq<CullingEvidence>, reviews: Seq<CullingReview>, missing_key: i64, n: int) -> Seq<ReferenceCandidate>
    decreases n,
{
    if n <= 0 {
        seq![]
    } else {
        let rest = candidates_upto(ids, recs, reviews, missing_key, n - 1);
        match candidate_at(ids, recs, reviews, missing_key, n - 1) {
            Some(c) => rest.push(c),
            None => rest,
        }
    }
}

/// The photos among the first `n` that are kept out, in group order.
pub open spec fn excluded_upto(ids: Seq<u128>, recs: Seq<CullingEvidence>, reviews: Seq<CullingReview>, n: int) -> Seq<u128>
    decreases n,
{
    if n <= 0 {
        seq![]
    } else {
        let rest = excluded_upto(ids, recs, reviews, n - 1);
        if excluded_photo(latest_decision(reviews, ids[n - 1]), latest_evidence(recs, ids[n - 1])) {
            rest.push(ids[n - 1])
        } else {
            rest
        }
    }
}

/// `a` ranks ahead of `b`: a more authoritative source, then a better
/// quality score, then a better rank in the group, then an earlier position.
pub open spec fn ranks_before(a: ReferenceCandidate, b: ReferenceCandidate) -> bool {
    ||| priority(a.source) < priority(b.source)
    ||| priority(a.source) == priority(b.source) && a.quality_key > b.quality_key
    ||| priority(a.source) == priority(b.source) && a.quality_key == b.quality_key && a.group_rank < b.group_rank
    ||| priority(a.source) == priority(b.source) && a.quality_key == b.quality_key && a.group_rank == b.group_rank
        && a.position < b.position
}

/// The position of the first best-ranked candidate.
pub open spec fn best_index(s: Seq<ReferenceCandidate>) -> int
    decreases s.len(),
{
    if s.len() <= 1 {
        0
    } else {
        let m = best_index(s.drop_last());
        if ranks_before(s.last(), s[m]) {
            s.len() - 1
        } else {
            m
        }
    }
}

pub proof fn lemma_best_index(s: Seq<ReferenceCandidate>)
    requires
        s.len() > 0,
    ensures
        0 <= best_index(s) < s.len(),
        forall|i: int| 0 <= i < s.len() ==> !ranks_before(#[trigger] s[i], s[best_index(s)]),
    decreases s.len(),
{
    if s.len() > 1 {
        let d = s.drop_last();
        lemma_best_index(d);
        let m = best_index(d);
        assert forall|i: int| 0 <= i < s.len() implies !ranks_before(#[trigger] s[i], s[best_index(s)]) by {
            if i < s.len() - 1 {
                assert(s[i] == d[i]);
                assert(!ranks_before(d[i], d[m]));
            }
        }
    }
}

/// The candidates in rank order: the best first, then the rest in rank order.
pub open spec fn rank_order(s: Seq<ReferenceCandidate>) -> Seq<ReferenceCandidate>
    decreases s.len(),
{
    if s.len() == 0 {
        seq![]
    } else {
        proof {
            lemma_best_index(s);
        }
        seq![s[best_index(s)]] + rank_order(s.remove(best_index(s)))
    }
}

pub open spec fn candidate_ids(s: Seq<ReferenceCandidate>) -> Seq<u128> {
    s.map_values(|c: ReferenceCandidate| c.asset_id)
}

pub open spec fn people_in(recs: Seq<CullingEvidence>) -> bool {
    exists|i: int| 0 <= i < recs.len() && shows_people(#[trigger] recs[i])
}

/// What the readiness plan of a group is, given its photos in order, their
/// culling recommendations, the photos still pending, whether exposure
/// brackets were found, the photographer's reviews, and the quality key of a
/// photo without a recommendation.
pub open spec fn readiness_plan_ok(
    group_id: u128,
    ids: Seq<u128>,
    recs: Seq<CullingEvidence>,
    pending: Seq<u128>,
    has_brackets: bool,
    reviews: Seq<CullingReview>,
    missing_key: i64,
    plan: ReferenceReadinessPlan,
) -> bool {
    let cands = candidates_upto(ids, recs, reviews, missing_key, ids.len() as int);
    let ranked = rank_order(cands);
    let leading = if ranked.len() > 0 { Some(ranked[0]) } else { None::<ReferenceCandidate> };
    let ready = (leading matches Some(c) && (pending.len() == 0 || c.source == ReferenceCandidateSource::PhotographerKeep));
    &&& plan.group_id == group_id
    &&& plan.contains_people == people_in(recs)
    &&& plan.pending_asset_ids@ == pending
    &&& plan.excluded_asset_ids@ == excluded_upto(ids, recs, reviews, ids.len() as int)
    &&& plan.eligible_candidate_ids@ == candidate_ids(ranked)
    &&& plan.candidate_source == (match leading { Some(c) => Some(c.source), None => None })
    &&& plan.candidate_asset_id == (match leading { Some(c) => Some(c.asset_id), None => None })
    &&& plan.candidate_scene_tags@ == (match leading {
        Some(c) => match latest_evidence(recs, c.asset_id) {
            Some(r) => r.scene_tags@,
            None => seq![],
        },
        None => seq![],
    })
    &&& if has_brackets {
        plan.status == ReferenceReadinessStatus::HdrMergeFirst && plan.suggested_asset_id is None
    } else if ready {
        plan.status == ReferenceReadinessStatus::Ready && plan.suggested_asset_id == Some(leading->0.asset_id)
    } else {
        plan.status == ReferenceReadinessStatus::NeedsCullReview && plan.suggested_asset_id is None
    }
}

fn candidate_for(
    asset_ids: &Vec<u128>,
    recommendations: &Vec<CullingEvidence>,
    reviews: &Vec<CullingReview>,
    missing_quality_key: i64,
    p: usize,
) -> (res: (Option<ReferenceCandidate>, bool))
    requires
        p < asset_ids@.len(),
    ensures
        res.0 == candidate_at(asset_ids@, recommendations@, reviews@, missing_quality_key, p as int),
        res.1 == excluded_photo(latest_decision(reviews@, asset_ids@[p as int]), latest_evidence(recommendations@, asset_ids@[p as int])),
{
    let a = asset_ids[p];
    let user = latest_decision_in(reviews, a);
    let rec = latest_evidence_index(recommendations, a);
    let source = match user {
        Some(CullingUserDecision::Reject) => None,
        Some(CullingUserDecision::Keep) => Some(ReferenceCandidateSource::PhotographerKeep),
        Some(CullingUserDecision::Review) => Some(ReferenceCandidateSource::PhotographerReview),
        None => match rec {
            Some(i) => match recommendations[i].decision {
                CullingDecision::Keep => Some(ReferenceCandidateSource::AiKeep),
                CullingDecision::Review => Some(ReferenceCandidateSource::AiReview),
                CullingDecision::RejectSuggestion => None,
            },
            None => None,
        },
    };
    let excluded = match user {
        Some(d) => d == CullingUserDecision::Reject,
        None => match rec {
            Some(i) => recommendations[i].decision == CullingDecision::RejectSuggestion,
            None => false,
        },
    };
    let candidate = match source {
        None => None,
        Some(source) => {
            let (quality_key, group_rank) = match rec {
                Some(i) => (recommendations[i].quality_key, recommendations[i].group_rank),
                None => (missing_quality_key, usize::MAX),
            };
            Some(ReferenceCandidate { asset_id: a, source, quality_key, group_rank, position: p })
        },
    };
    (candidate, excluded)
}

fn ranks_before_exec(a: &ReferenceCandidate, b: &ReferenceCandidate) -> (res: bool)
    ensures
        res == ranks_before(*a, *b),
{
    let pa = reference_candidate_priority(a.source);
    let pb = reference_candidate_priority(b.source);
    if pa != pb {
        return pa < pb;
    }
    if a.quality_key != b.quality_key {
        return a.quality_key > b.quality_key;
    }
    if a.group_rank != b.group_rank {
        return a.group_rank < b.group_rank;
    }
    a.position < b.position
}

fn best_index_exec(s: &Vec<ReferenceCandidate>) -> (res: usize)
    requires
        s@.len() > 0,
    ensures
        res == best_index(s@),
{
    let mut m: usize = 0;
    let mut i: usize = 1;
    assert(s@.subrange(0, 1).len() == 1);
    while i < s.len()
        invariant
            1 <= i <= s@.len(),
            m < i,
            m == best_index(s@.subrange(0, i as int)),
        decreases s@.len() - i,
    {
        let ghost pre = s@.subrange(0, i + 1);
        assert(pre.drop_last() =~= s@.subrange(0, i as int));
        assert(pre.last() == s@[i as int]);
        assert(pre[m as int] == s@[m as int]);
        if ranks_before_exec(&s[i], &s[m]) {
            m = i;
        }
        i += 1;
    }
    assert(s@.subrange(0, s@.len() as int) =~= s@);
    m
}

/// The quality key a photo without a recommendation ranks by: the order key
/// of the score -1.0, below every score from 0 up.
pub const MISSING_QUALITY_KEY: i64 = -1065353217i64;

/// Builds the reference readiness of one group from the evidence culling
/// already produced. The photographer's decisions are authoritative: a
/// photographer Keep can advance while sibling photos are still pending, but
/// a suggestion alone waits until the group's culling evidence is complete.
/// Exposure brackets always go to HDR merge first.
pub fn build_reference_readiness_plan(
    group_id: u128,
    asset_ids: &Vec<u128>,
    recommendations: &Vec<CullingEvidence>,
    pending_asset_ids: &Vec<u128>,
    has_exposure_brackets: bool,
    reviews: &Vec<CullingReview>,
) -> (res: ReferenceReadinessPlan)
    ensures
        readiness_plan_ok(group_id, asset_ids@, recommendations@, pending_asset_ids@, has_exposure_brackets, reviews@, MISSING_QUALITY_KEY, res),
{
    let missing_quality_key = MISSING_QUALITY_KEY;
    let mut contains_people = false;
    let mut r: usize = 0;
    while r < recommendations.len()
        invariant
            r <= recommendations@.len(),
            contains_people == exists|k: int| 0 <= k < r && shows_people(#[trigger] recommendations@[k]),
        decreases recommendations@.len() - r,
    {
        if has_people(&recommendations[r]) {
            contains_people = true;
        }
        r += 1;
    }
    let ghost ids = asset_ids@;
    let mut candidates: Vec<ReferenceCandidate> = Vec::new();
    let mut excluded: Vec<u128> = Vec::new();
    let mut p: usize = 0;
    while p < asset_ids.len()
        invariant
            p <= asset_ids@.len(),
            ids == asset_ids@,
            candidates@ == candidates_upto(ids, recommendations@, reviews@, missing_quality_key, p as int),
            excluded@ == excluded_upto(ids, recommendations@, reviews@, p as int),
        decreases asset_ids@.len() - p,
    {
        let (candidate, is_excluded) = candidate_for(asset_ids, recommendations, reviews, missing_quality_key, p);
        match candidate {
            Some(c) => candidates.push(c),
            None => {},
        }
        if is_excluded {
            excluded.push(asset_ids[p]);
        }
        p += 1;
    }
    let ghost cands = candidates@;
    let mut rest = candidates;
    let mut ranked: Vec<ReferenceCandidate> = Vec::new();
    while rest.len() > 0
        invariant
            ranked@ + rank_order(rest@) == rank_order(cands),
        decreases rest@.len(),
    {
        let m = best_index_exec(&rest);
        proof {
            lemma_best_index(rest@);
        }
        let ghost before = rest@;
        let best = rest.remove(m);
        ranked.push(best);
        assert(ranked@ + rank_order(rest@) =~= rank_order(cands)) by {
            assert(rank_order(before) == seq![before[m as int]] + rank_order(before.remove(m as int)));
        }
    }
    assert(ranked@ + rank_order(rest@) =~= ranked@);
    let mut eligible: Vec<u128> = Vec::new();
    let mut k: usize = 0;
    while k < ranked.len()
        invariant
            k <= ranked@.len(),
            eligible@ == candidate_ids(ranked@).subrange(0, k as int),
        decreases ranked@.len() - k,
    {
        eligible.push(ranked[k].asset_id);
        k += 1;
        assert(eligible@ =~= candidate_ids(ranked@).subrange(0, k as int));
    }
    assert(candidate_ids(ranked@).subrange(0, ranked@.len() as int) =~= candidate_ids(ranked@));
    let leading: Option<ReferenceCandidate> = if ranked.len() > 0 { Some(ranked[0]) } else { None };
    let candidate_scene_tags: Vec<SceneTag> = match leading {
        Some(c) => match latest_evidence_index(recommendations, c.asset_id) {
            Some(i) => {
                let tags = recommendations[i].scene_tags.clone();
                assert(tags@ =~= recommendations@[i as int].scene_tags@);
                tags
            },
            None => Vec::new(),
        },
        None => Vec::new(),
    };
    let ready = match leading {
        Some(c) => pending_asset_ids.len() == 0 || c.source == ReferenceCandidateSource::PhotographerKeep,
        None => false,
    };
    let (status, suggested_asset_id) = if has_exposure_brackets {
        (ReferenceReadinessStatus::HdrMergeFirst, None)
    } else if ready {
        (ReferenceReadinessStatus::Ready, Some(ranked[0].asset_id))
    } else {
        (ReferenceReadinessStatus::NeedsCullReview, None)
    };
    let pending = pending_asset_ids.clone();
    assert(pending@ =~= pending_asset_ids@);
    ReferenceReadinessPlan {
        group_id,
        status,
        suggested_asset_id,
        candidate_source: match leading {
            Some(c) => Some(c.source),
            None => None,
        },
        candidate_asset_id: match leading {
            Some(c) => Some(c.asset_id),
            None => None,
        },
        candidate_scene_tags,
        contains_people,
        pending_asset_ids: pending,
        excluded_asset_ids: excluded,
        eligible_candidate_ids: eligible,
    }
}

proof fn lemma_candidates_source(ids: Seq<u128>, recs: Seq<CullingEvidence>, reviews: Seq<CullingReview>, missing_key: i64, n: int)
    requires
        0 <= n <= ids.len(),
    ensures
        forall|i: int| 0 <= i < candidates_upto(ids, recs, reviews, missing_key, n).len() ==> {
            let c = #[trigger] candidates_upto(ids, recs, reviews, missing_key, n)[i];
            exists|p: int| 0 <= p < n && candidate_at(ids, recs, reviews, missing_key, p) == Some(c)
        },
    decreases n,
{
    if n > 0 {
        lemma_candidates_source(ids, recs, reviews, missing_key, n - 1);
        let rest = candidates_upto(ids, recs, reviews, missing_key, n - 1);
        let all = candidates_upto(ids, recs, reviews, missing_key, n);
        assert forall|i: int| 0 <= i < all.len() implies {
            let c = #[trigger] all[i];
            exists|p: int| 0 <= p < n && candidate_at(ids, recs, reviews, missing_key, p) == Some(c)
        } by {
            if i < rest.len() {
                assert(all[i] == rest[i]);
                let c = rest[i];
                let p = choose|p: int| 0 <= p < n - 1 && candidate_at(ids, recs, reviews, missing_key, p) == Some(c);
            } else {
                assert(candidate_at(ids, recs, reviews, missing_key, n - 1) == Some(all[i]));
            }
        }
    }
}

proof fn lemma_candidate_listed(ids: Seq<u128>, recs: Seq<CullingEvidence>, reviews: Seq<CullingReview>, missing_key: i64, n: int, p: int)
    requires
        0 <= p < n <= ids.len(),
        candidate_at(ids, recs, reviews, missing_key, p) is Some,
    ensures
        candidates_upto(ids, recs, reviews, missing_key, n).contains(candidate_at(ids, recs, reviews, missing_key, p)->0),
    decreases n,
{
    let all = candidates_upto(ids, recs, reviews, missing_key, n);
    if p == n - 1 {
        assert(all.last() == candidate_at(ids, recs, reviews, missing_key, p)->0);
    } else {
        lemma_candidate_listed(ids, recs, reviews, missing_key, n - 1, p);
        let rest = candidates_upto(ids, recs, reviews, missing_key, n - 1);
        let t = choose|t: int| 0 <= t < rest.len() && rest[t] == candidate_at(ids, recs, reviews, missing_key, p)->0;
        assert(all[t] == rest[t]);
    }
}

/// A photo the photographer rejected is never a reference candidate: it is
/// not among the eligible photos of the plan.
pub proof fn photographer_reject_is_never_a_candidate(
    ids: Seq<u128>,
    recs: Seq<CullingEvidence>,
    reviews: Seq<CullingReview>,
    missing_key: i64,
    a: u128,
)
    requires
        latest_decision(reviews, a) == Some(CullingUserDecision::Reject),
    ensures
        forall|i: int| 0 <= i < candidates_upto(ids, recs, reviews, missing_key, ids.len() as int).len()
            ==> (#[trigger] candidates_upto(ids, recs, reviews, missing_key, ids.len() as int)[i]).asset_id != a,
{
    lemma_candidates_source(ids, recs, reviews, missing_key, ids.len() as int);
}

/// The leading candidate ranks ahead of, or level with, every other one; in
/// particular a photographer Keep always leads over any suggestion.
pub proof fn leading_candidate_is_best(s: Seq<ReferenceCandidate>)
    requires
        s.len() > 0,
    ensures
        rank_order(s)[0] == s[best_index(s)],
        forall|i: int| 0 <= i < s.len() ==> !ranks_before(#[trigger] s[i], rank_order(s)[0]),
        (exists|i: int| 0 <= i < s.len() && (#[trigger] s[i]).source == ReferenceCandidateSource::PhotographerKeep)
            ==> rank_order(s)[0].source == ReferenceCandidateSource::PhotographerKeep,
{
    lemma_best_index(s);
    if exists|i: int| 0 <= i < s.len() && (#[trigger] s[i]).source == ReferenceCandidateSource::PhotographerKeep {
        let i = choose|i: int| 0 <= i < s.len() && (#[trigger] s[i]).source == ReferenceCandidateSource::PhotographerKeep;
        assert(!ranks_before(s[i], s[best_index(s)]));
    }
}

proof fn lemma_rank_order_props(s: Seq<ReferenceCandidate>)
    ensures
        rank_order(s).len() == s.len(),
        forall|k: int| 0 <= k < s.len() ==> s.contains(#[trigger] rank_order(s)[k]),
        forall|j: int, k: int| 0 <= j < k < s.len() ==> !ranks_before(#[trigger] rank_order(s)[k], #[trigger] rank_order(s)[j]),
    decreases s.len(),
{
    if s.len() > 0 {
        lemma_best_index(s);
        let b = best_index(s);
        let rest = s.remove(b);
        lemma_rank_order_props(rest);
        let r = rank_order(s);
        assert(r == seq![s[b]] + rank_order(rest));
        assert forall|k: int| 0 <= k < s.len() implies s.contains(#[trigger] r[k]) by {
            if k == 0 {
                assert(s[b] == r[0]);
            } else {
                assert(r[k] == rank_order(rest)[k - 1]);
                assert(rest.contains(r[k]));
                let t = choose|t: int| 0 <= t < rest.len() && rest[t] == r[k];
                if t < b {
                    assert(s[t] == rest[t]);
                } else {
                    assert(s[t + 1] == rest[t]);
                }
            }
        }
        assert forall|j: int, k: int| 0 <= j < k < s.len() implies !ranks_before(#[trigger] r[k], #[trigger] r[j]) by {
            assert(r[k] == rank_order(rest)[k - 1]);
            if j == 0 {
                assert(s.contains(r[k]));
                let t = choose|t: int| 0 <= t < s.len() && s[t] == r[k];
                assert(!ranks_before(s[t], s[b]));
            } else {
                assert(r[j] == rank_order(rest)[j - 1]);
            }
        }
    }
}

/// Candidates come in order of their source, whatever their quality:
/// photographer Keeps, then suggested Keeps, then photographer Reviews, then
/// suggested Reviews. So with a suggested Keep among the candidates the
/// leading one is a Keep (the photographer's or a suggested one), and with a
/// photographer Review among them the leading one is no mere suggested Review.
pub proof fn candidates_rank_by_source(s: Seq<ReferenceCandidate>)
    ensures
        rank_order(s).len() == s.len(),
        forall|j: int, k: int| 0 <= j < k < s.len() ==> {
            &&& (#[trigger] rank_order(s)[k]).source == ReferenceCandidateSource::PhotographerKeep
                ==> (#[trigger] rank_order(s)[j]).source == ReferenceCandidateSource::PhotographerKeep
            &&& rank_order(s)[k].source == ReferenceCandidateSource::AiKeep
                ==> (rank_order(s)[j].source == ReferenceCandidateSource::PhotographerKeep
                    || rank_order(s)[j].source == ReferenceCandidateSource::AiKeep)
            &&& rank_order(s)[k].source == ReferenceCandidateSource::PhotographerReview
                ==> rank_order(s)[j].source != ReferenceCandidateSource::AiReview
        },
        (exists|i: int| 0 <= i < s.len() && (#[trigger] s[i]).source == ReferenceCandidateSource::AiKeep)
            ==> (rank_order(s)[0].source == ReferenceCandidateSource::PhotographerKeep
                || rank_order(s)[0].source == ReferenceCandidateSource::AiKeep),
        (exists|i: int| 0 <= i < s.len() && (#[trigger] s[i]).source == ReferenceCandidateSource::PhotographerReview)
            ==> rank_order(s)[0].source != ReferenceCandidateSource::AiReview,
{
    lemma_rank_order_props(s);
    let r = rank_order(s);
    assert forall|j: int, k: int| 0 <= j < k < s.len() implies {
        &&& (#[trigger] r[k]).source == ReferenceCandidateSource::PhotographerKeep
            ==> (#[trigger] r[j]).source == ReferenceCandidateSource::PhotographerKeep
        &&& r[k].source == ReferenceCandidateSource::AiKeep
            ==> (r[j].source == ReferenceCandidateSource::PhotographerKeep
                || r[j].source == ReferenceCandidateSource::AiKeep)
        &&& r[k].source == ReferenceCandidateSource::PhotographerReview
            ==> r[j].source != ReferenceCandidateSource::AiReview
    } by {
        assert(!ranks_before(r[k], r[j]));
    }
    if s.len() > 0 {
        lemma_best_index(s);
        if exists|i: int| 0 <= i < s.len() && (#[trigger] s[i]).source == ReferenceCandidateSource::AiKeep {
            let i = choose|i: int| 0 <= i < s.len() && (#[trigger] s[i]).source == ReferenceCandidateSource::AiKeep;
            assert(!ranks_before(s[i], s[best_index(s)]));
        }
        if exists|i: int| 0 <= i < s.len() && (#[trigger] s[i]).source == ReferenceCandidateSource::PhotographerReview {
            let i = choose|i: int| 0 <= i < s.len() && (#[trigger] s[i]).source == ReferenceCandidateSource::PhotographerReview;
            assert(!ranks_before(s[i], s[best_index(s)]));
        }
    }
}

proof fn lemma_excluded_upto(ids: Seq<u128>, recs: Seq<CullingEvidence>, reviews: Seq<CullingReview>, n: int)
    requires
        0 <= n <= ids.len(),
    ensures
        forall|x: u128| #[trigger] excluded_upto(ids, recs, reviews, n).contains(x) <==> exists|p: int| 0 <= p < n
            && ids[p] == x && #[trigger] excluded_photo(latest_decision(reviews, ids[p]), latest_evidence(recs, ids[p])),
    decreases n,
{
    if n > 0 {
        lemma_excluded_upto(ids, recs, reviews, n - 1);
        let rest = excluded_upto(ids, recs, reviews, n - 1);
        let all = excluded_upto(ids, recs, reviews, n);
        assert forall|x: u128| #[trigger] all.contains(x) <==> exists|p: int| 0 <= p < n
            && ids[p] == x && #[trigger] excluded_photo(latest_decision(reviews, ids[p]), latest_evidence(recs, ids[p])) by {
            if all.contains(x) {
                let t = choose|t: int| 0 <= t < all.len() && all[t] == x;
                if t < rest.len() {
                    assert(rest[t] == x);
                    assert(rest.contains(x));
                } else {
                    assert(ids[n - 1] == x);
                    assert(excluded_photo(latest_decision(reviews, ids[n - 1]), latest_evidence(recs, ids[n - 1])));
                }
            }
            if exists|p: int| 0 <= p < n && ids[p] == x && #[trigger] excluded_photo(latest_decision(reviews, ids[p]), latest_evidence(recs, ids[p])) {
                let p = choose|p: int| 0 <= p < n && ids[p] == x && #[trigger] excluded_photo(latest_decision(reviews, ids[p]), latest_evidence(recs, ids[p]));
                if p < n - 1 {
                    assert(rest.contains(x));
                    let t = choose|t: int| 0 <= t < rest.len() && rest[t] == x;
                    assert(all[t] == x);
                } else {
                    assert(all[rest.len() as int] == x);
                }
            }
        }
    }
}

/// Law: the readiness plan keeps rejected photos out and ranks the rest.
/// Every excluded and every eligible photo is a photo of the group, and none
/// is both; a photo the photographer rejected, or one only suggested for
/// rejection, is excluded; the candidates come best first, none ranking
/// ahead of one before it; and the group is Ready exactly when it has no
/// exposure brackets, some candidate, and either nothing pending or a
/// photographer Keep in the lead, in which case the leading candidate is
/// the suggestion. Sources outrank quality: when the photographer has not
/// decided on a photo suggested as a Keep, the leading candidate is a Keep;
/// when the photographer marked a photo Review, the leading candidate is not
/// a mere suggested Review.
pub proof fn readiness_plan_laws(
    group_id: u128,
    ids: Seq<u128>,
    recs: Seq<CullingEvidence>,
    pending: Seq<u128>,
    has_brackets: bool,
    reviews: Seq<CullingReview>,
    plan: ReferenceReadinessPlan,
)
    requires
        readiness_plan_ok(group_id, ids, recs, pending, has_brackets, reviews, MISSING_QUALITY_KEY, plan),
    ensures
        forall|x: u128| #[trigger] plan.excluded_asset_ids@.contains(x) ==> ids.contains(x) && !plan.eligible_candidate_ids@.contains(x),
        forall|x: u128| #[trigger] plan.eligible_candidate_ids@.contains(x) ==> ids.contains(x),
        forall|p: int| 0 <= p < ids.len() && (latest_decision(reviews, #[trigger] ids[p]) == Some(CullingUserDecision::Reject)
            || (latest_decision(reviews, ids[p]) is None && (latest_evidence(recs, ids[p]) matches Some(r)
                && r.decision == CullingDecision::RejectSuggestion)))
            ==> plan.excluded_asset_ids@.contains(ids[p]),
        ({
            let ranked = rank_order(candidates_upto(ids, recs, reviews, MISSING_QUALITY_KEY, ids.len() as int));
            &&& plan.eligible_candidate_ids@ == candidate_ids(ranked)
            &&& forall|j: int, k: int| 0 <= j < k < ranked.len() ==> !ranks_before(#[trigger] ranked[k], #[trigger] ranked[j])
        }),
        (plan.status == ReferenceReadinessStatus::Ready) <==> (!has_brackets && plan.eligible_candidate_ids@.len() > 0
            && (pending.len() == 0 || plan.candidate_source == Some(ReferenceCandidateSource::PhotographerKeep))),
        plan.suggested_asset_id == (if plan.status == ReferenceReadinessStatus::Ready {
            Some(plan.eligible_candidate_ids@[0])
        } else {
            None::<u128>
        }),
        (exists|p: int| 0 <= p < ids.len() && latest_decision(reviews, #[trigger] ids[p]) is None
            && (latest_evidence(recs, ids[p]) matches Some(r) && r.decision == CullingDecision::Keep))
            ==> (plan.candidate_source == Some(ReferenceCandidateSource::PhotographerKeep)
                || plan.candidate_source == Some(ReferenceCandidateSource::AiKeep)),
        (exists|p: int| 0 <= p < ids.len() && latest_decision(reviews, #[trigger] ids[p]) == Some(CullingUserDecision::Review))
            ==> plan.candidate_source is Some && plan.candidate_source != Some(ReferenceCandidateSource::AiReview),
{
    let n = ids.len() as int;
    let cands = candidates_upto(ids, recs, reviews, MISSING_QUALITY_KEY, n);
    let ranked = rank_order(cands);
    lemma_rank_order_props(cands);
    lemma_candidates_source(ids, recs, reviews, MISSING_QUALITY_KEY, n);
    lemma_excluded_upto(ids, recs, reviews, n);
    let elig = plan.eligible_candidate_ids@;
    let excl = plan.excluded_asset_ids@;
    assert(elig == candidate_ids(ranked));
    assert forall|x: u128| #[trigger] elig.contains(x) implies ids.contains(x)
        && !excluded_photo(latest_decision(reviews, x), latest_evidence(recs, x)) by {
        let k = choose|k: int| 0 <= k < elig.len() && elig[k] == x;
        assert(ranked[k].asset_id == x);
        assert(cands.contains(ranked[k]));
        let i = choose|i: int| 0 <= i < cands.len() && cands[i] == ranked[k];
        let c = cands[i];
        let p = choose|p: int| 0 <= p < n && candidate_at(ids, recs, reviews, MISSING_QUALITY_KEY, p) == Some(c);
        assert(ids[p] == x);
    }
    assert forall|x: u128| #[trigger] excl.contains(x) implies ids.contains(x) && !elig.contains(x) by {
        let p = choose|p: int| 0 <= p < n
            && ids[p] == x && #[trigger] excluded_photo(latest_decision(reviews, ids[p]), latest_evidence(recs, ids[p]));
        assert(ids[p] == x);
    }
    assert forall|p: int| 0 <= p < ids.len() && (latest_decision(reviews, #[trigger] ids[p]) == Some(CullingUserDecision::Reject)
        || (latest_decision(reviews, ids[p]) is None && (latest_evidence(recs, ids[p]) matches Some(r)
            && r.decision == CullingDecision::RejectSuggestion)))
        implies excl.contains(ids[p]) by {
        assert(excluded_photo(latest_decision(reviews, ids[p]), latest_evidence(recs, ids[p])));
    }
    if ranked.len() > 0 {
        assert(elig[0] == ranked[0].asset_id);
    }
    candidates_rank_by_source(cands);
    if exists|p: int| 0 <= p < ids.len() && latest_decision(reviews, #[trigger] ids[p]) is None
        && (latest_evidence(recs, ids[p]) matches Some(r) && r.decision == CullingDecision::Keep) {
        let p = choose|p: int| 0 <= p < ids.len() && latest_decision(reviews, #[trigger] ids[p]) is None
            && (latest_evidence(recs, ids[p]) matches Some(r) && r.decision == CullingDecision::Keep);
        lemma_candidate_listed(ids, recs, reviews, MISSING_QUALITY_KEY, n, p);
        let c = candidate_at(ids, recs, reviews, MISSING_QUALITY_KEY, p)->0;
        assert(c.source == ReferenceCandidateSource::AiKeep);
        let t = choose|t: int| 0 <= t < cands.len() && cands[t] == c;
        assert(cands[t].source == ReferenceCandidateSource::AiKeep);
    }
    if exists|p: int| 0 <= p < ids.len() && latest_decision(reviews, #[trigger] ids[p]) == Some(CullingUserDecision::Review) {
        let p = choose|p: int| 0 <= p < ids.len() && latest_decision(reviews, #[trigger] ids[p]) == Some(CullingUserDecision::Review);
        lemma_candidate_listed(ids, recs, reviews, MISSING_QUALITY_KEY, n, p);
        let c = candidate_at(ids, recs, reviews, MISSING_QUALITY_KEY, p)->0;
        assert(c.source == ReferenceCandidateSource::PhotographerReview);
        let t = choose|t: int| 0 <= t < cands.len() && cands[t] == c;
        assert(cands[t].source == ReferenceCandidateSource::PhotographerReview);
    }
}

/// Why a batch of reference choices was refused, naming the first request
/// that fails.
#[derive(PartialEq, Eq, Structural, Clone, Copy, Debug)]
pub enum ReferenceBatchError {
    /// No group was selected.
    NoGroupsSelected,
    /// The group was already chosen by an earlier request.
    DuplicateGroup(u128),
    /// The group is not a group of the batch.
    GroupOutsideBatch(u128),
    /// The photo is not in the group.
    AssetOutsideGroup { group_id: u128, asset_id: u128 },
    /// The group already has a reference; it is changed on its own.
    AlreadyBound(u128),
    /// The group holds exposure-bracket sources to merge first.
    HdrMergeFirst(u128),
    /// The group still needs culling review.
    NeedsCullReview(u128),
    /// The group's suggested reference is no longer the chosen photo.
    SuggestionChanged(u128),
}

/// The batch group with id `g`; the last one when the id occurs twice.
pub open spec fn batch_group(groups: Seq<PhotoGroup>, g: u128) -> Option<PhotoGroup>
    decreases groups.len(),
{
    if groups.len() == 0 {
        None
    } else if groups.last().id == g {
        Some(groups.last())
    } else {
        batch_group(groups.drop_last(), g)
    }
}

/// What is wrong with request `i` (group and photo), if anything, given the
/// batch's groups, the groups already bound to a reference, and the
/// readiness plan of its group.
pub open spec fn request_problem(
    requests: Seq<(u128, u128)>,
    i: int,
    groups: Seq<PhotoGroup>,
    bound: Seq<u128>,
    plan: ReferenceReadinessPlan,
) -> Option<ReferenceBatchError> {
    let g = requests[i].0;
    let a = requests[i].1;
    if exists|j: int| 0 <= j < i && (#[trigger] requests[j]).0 == g {
        Some(ReferenceBatchError::DuplicateGroup(g))
    } else {
        match batch_group(groups, g) {
            None => Some(ReferenceBatchError::GroupOutsideBatch(g)),
            Some(group) => if !group.asset_ids@.contains(a) {
                Some(ReferenceBatchError::AssetOutsideGroup { group_id: g, asset_id: a })
            } else if bound.contains(g) {
                Some(ReferenceBatchError::AlreadyBound(g))
            } else {
                match plan.status {
                    ReferenceReadinessStatus::HdrMergeFirst => Some(ReferenceBatchError::HdrMergeFirst(g)),
                    ReferenceReadinessStatus::NeedsCullReview => Some(ReferenceBatchError::NeedsCullReview(g)),
                    ReferenceReadinessStatus::Ready => if plan.suggested_asset_id != Some(a) {
                        Some(ReferenceBatchError::SuggestionChanged(g))
                    } else {
                        None
                    },
                }
            },
        }
    }
}

/// The problem of the first failing request among the first `n`.
pub open spec fn first_request_problem(
    requests: Seq<(u128, u128)>,
    groups: Seq<PhotoGroup>,
    bound: Seq<u128>,
    plans: Seq<ReferenceReadinessPlan>,
    n: int,
) -> Option<ReferenceBatchError>
    decreases n,
{
    if n <= 0 {
        None
    } else {
        match first_request_problem(requests, groups, bound, plans, n - 1) {
            Some(e) => Some(e),
            None => request_problem(requests, n - 1, groups, bound, plans[n - 1]),
        }
    }
}

fn batch_group_index(groups: &Vec<PhotoGroup>, g: u128) -> (res: Option<usize>)
    ensures
        match res {
            Some(k) => k < groups@.len() && batch_group(groups@, g) == Some(groups@[k as int]),
            None => batch_group(groups@, g) is None,
        },
{
    let mut i: usize = groups.len();
    assert(groups@.subrange(0, i as int) =~= groups@);
    while i > 0
        invariant
            i <= groups@.len(),
            batch_group(groups@, g) == batch_group(groups@.subrange(0, i as int), g),
        decreases i,
    {
        let ghost pre = groups@.subrange(0, i as int);
        assert(pre.drop_last() =~= groups@.subrange(0, i - 1));
        if groups[i - 1].id == g {
            return Some(i - 1);
        }
        i -= 1;
    }
    assert(groups@.subrange(0, 0) =~= Seq::<PhotoGroup>::empty());
    None
}

fn request_check(
    requests: &Vec<(u128, u128)>,
    i: usize,
    groups: &Vec<PhotoGroup>,
    bound: &Vec<u128>,
    plan: &ReferenceReadinessPlan,
) -> (res: Option<ReferenceBatchError>)
    requires
        i < requests@.len(),
    ensures
        res == request_problem(requests@, i as int, groups@, bound@, *plan),
{
    let (g, a) = requests[i];
    let mut j: usize = 0;
    while j < i
        invariant
            j <= i < requests@.len(),
            g == requests@[i as int].0,
            forall|k: int| 0 <= k < j ==> (#[trigger] requests@[k]).0 != g,
        decreases i - j,
    {
        if requests[j].0 == g {
            return Some(ReferenceBatchError::DuplicateGroup(g));
        }
        j += 1;
    }
    let k = match batch_group_index(groups, g) {
        None => return Some(ReferenceBatchError::GroupOutsideBatch(g)),
        Some(k) => k,
    };
    if !crate::ids::id_listed(groups[k].asset_ids.as_slice(), a) {
        return Some(ReferenceBatchError::AssetOutsideGroup { group_id: g, asset_id: a });
    }
    if crate::ids::id_listed(bound.as_slice(), g) {
        return Some(ReferenceBatchError::AlreadyBound(g));
    }
    match plan.status {
        ReferenceReadinessStatus::HdrMergeFirst => Some(ReferenceBatchError::HdrMergeFirst(g)),
        ReferenceReadinessStatus::NeedsCullReview => Some(ReferenceBatchError::NeedsCullReview(g)),
        ReferenceReadinessStatus::Ready => if plan.suggested_asset_id != Some(a) {
            Some(ReferenceBatchError::SuggestionChanged(g))
        } else {
            None
        },
    }
}

/// Plans setting the reference of several groups at once, each request a
/// group and the photo to use. `batch_groups` are the batch's groups,
/// `bound` the groups that already have a reference, and `readiness[i]` the
/// readiness plan of request `i`'s group. Every request must name a new
/// group of the batch, a photo of that group, a group without a reference,
/// and a group that is Ready with that photo as its suggestion; the first
/// request that does not is named. The accepted requests are returned in
/// order.
pub fn plan_group_references(
    requests: &Vec<(u128, u128)>,
    batch_groups: &Vec<PhotoGroup>,
    bound: &Vec<u128>,
    readiness: &Vec<ReferenceReadinessPlan>,
) -> (res: Result<Vec<(u128, u128)>, ReferenceBatchError>)
    requires
        readiness@.len() == requests@.len(),
    ensures
        requests@.len() == 0 ==> res == Err::<Vec<(u128, u128)>, ReferenceBatchError>(ReferenceBatchError::NoGroupsSelected),
        requests@.len() > 0 ==> match first_request_problem(requests@, batch_groups@, bound@, readiness@, requests@.len() as int) {
            Some(e) => res == Err::<Vec<(u128, u128)>, ReferenceBatchError>(e),
            None => res matches Ok(v) && v@ == requests@,
        },
{
    if requests.len() == 0 {
        return Err(ReferenceBatchError::NoGroupsSelected);
    }
    let mut accepted: Vec<(u128, u128)> = Vec::new();
    let mut i: usize = 0;
    while i < requests.len()
        invariant
            i <= requests@.len(),
            readiness@.len() == requests@.len(),
            first_request_problem(requests@, batch_groups@, bound@, readiness@, i as int) is None,
            accepted@ == requests@.subrange(0, i as int),
        decreases requests@.len() - i,
    {
        match request_check(requests, i, batch_groups, bound, &readiness[i]) {
            Some(e) => {
                proof {
                    lemma_first_problem_stays(requests@, batch_groups@, bound@, readiness@, i as int + 1, requests@.len() as int);
                }
                return Err(e);
            },
            None => {},
        }
        accepted.push(requests[i]);
        i += 1;
        assert(accepted@ =~= requests@.subrange(0, i as int));
    }
    assert(accepted@ =~= requests@);
    Ok(accepted)
}

proof fn lemma_first_problem_stays(
    requests: Seq<(u128, u128)>,
    groups: Seq<PhotoGroup>,
    bound: Seq<u128>,
    plans: Seq<ReferenceReadinessPlan>,
    m: int,
    n: int,
)
    requires
        1 <= m <= n,
        first_request_problem(requests, groups, bound, plans, m) is Some,
    ensures
        first_request_problem(requests, groups, bound, plans, n) == first_request_problem(requests, groups, bound, plans, m),
    decreases n - m,
{
    if n > m {
        lemma_first_problem_stays(requests, groups, bound, plans, m, n - 1);
    }
}

} // verus!
