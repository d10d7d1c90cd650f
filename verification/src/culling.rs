//! What the culling evidence suggests for a photo, and why. The scores behind
//! a suggestion are computed outside the library.

use vstd::prelude::*;
use crate::classification::SceneTag;

verus! {

#[derive(PartialEq, Eq, Structural, Clone, Copy, Debug)]
pub enum CullingDecision {
    Keep,
    Review,
    RejectSuggestion,
}

#[derive(PartialEq, Eq, Structural, Clone, Copy, Debug)]
pub enum CullingReason {
    StrongTechnicalCandidate,
    LowSharpness,
    BlurRisk,
    ExposureRisk,
    ExposureBracketMember,
    NearDuplicate,
    LowTechnicalQuality,
}

/// What a culling recommendation says about one photo, as the workflow
/// rules read it. The scores themselves are measured outside the library and
/// reach it in three forms: `quality_key` orders photos by their quality
/// score (a larger key is a better score); `keep_quality` tells whether the
/// score reaches the keep threshold (0.85); `material_duplicate` tells
/// whether the photo nearly duplicates the group's first-ranked photo
/// (similarity at least 0.985) while scoring clearly lower (by at least
/// 0.08). `portrait_counts` holds the person and face counts when there is
/// portrait evidence.
pub struct CullingEvidence {
    pub asset_id: u128,
    pub decision: CullingDecision,
    pub group_rank: usize,
    pub quality_key: i64,
    pub portrait_counts: Option<(u32, u32)>,
    pub scene_tags: Vec<SceneTag>,
    pub reasons: Vec<CullingReason>,
    pub keep_quality: bool,
    pub material_duplicate: bool,
}

/// The evidence shows people: a person or a face was detected.
pub open spec fn shows_people(e: CullingEvidence) -> bool {
    e.portrait_counts matches Some((persons, faces)) && (persons > 0 || faces > 0)
}

pub fn has_people(e: &CullingEvidence) -> (res: bool)
    ensures
        res == shows_people(*e),
{
    match e.portrait_counts {
        Some((persons, faces)) => persons > 0 || faces > 0,
        None => false,
    }
}

/// The recommendation for `a` among `recs`: the last one given.
pub open spec fn latest_evidence(recs: Seq<CullingEvidence>, a: u128) -> Option<CullingEvidence>
    decreases recs.len(),
{
    if recs.len() == 0 {
        None
    } else if recs.last().asset_id == a {
        Some(recs.last())
    } else {
        latest_evidence(recs.drop_last(), a)
    }
}

/// The position of the last recommendation for `a`.
pub fn latest_evidence_index(recs: &Vec<CullingEvidence>, a: u128) -> (res: Option<usize>)
    ensures
        match res {
            Some(i) => i < recs@.len() && latest_evidence(recs@, a) == Some(recs@[i as int]),
            None => latest_evidence(recs@, a) is None,
        },
{
    let mut i: usize = recs.len();
    assert(recs@.subrange(0, i as int) =~= recs@);
    while i > 0
        invariant
            i <= recs@.len(),
            latest_evidence(recs@, a) == latest_evidence(recs@.subrange(0, i as int), a),
        decreases i,
    {
        let ghost pre = recs@.subrange(0, i as int);
        assert(pre.drop_last() =~= recs@.subrange(0, i - 1));
        if recs[i - 1].asset_id == a {
            return Some(i - 1);
        }
        i -= 1;
    }
    assert(recs@.subrange(0, 0) =~= Seq::<CullingEvidence>::empty());
    None
}

/// `s` without the occurrences of `x`, in order.
pub open spec fn without(s: Seq<CullingReason>, x: CullingReason) -> Seq<CullingReason>
    decreases s.len(),
{
    if s.len() == 0 {
        s
    } else if s.last() == x {
        without(s.drop_last(), x)
    } else {
        without(s.drop_last(), x).push(s.last())
    }
}

fn drop_reason(s: &Vec<CullingReason>, x: CullingReason) -> (res: Vec<CullingReason>)
    ensures
        res@ == without(s@, x),
{
    let mut out: Vec<CullingReason> = Vec::new();
    let mut i: usize = 0;
    while i < s.len()
        invariant
            i <= s@.len(),
            out@ == without(s@.subrange(0, i as int), x),
        decreases s@.len() - i,
    {
        assert(s@.subrange(0, i + 1).drop_last() =~= s@.subrange(0, i as int));
        if s[i] != x {
            out.push(s[i]);
        }
        i += 1;
    }
    assert(s@.subrange(0, s@.len() as int) =~= s@);
    out
}

fn has_reason(s: &Vec<CullingReason>, x: CullingReason) -> (res: bool)
    ensures
        res == s@.contains(x),
{
    let mut i: usize = 0;
    while i < s.len()
        invariant
            i <= s@.len(),
            forall|k: int| 0 <= k < i ==> s@[k] != x,
        decreases s@.len() - i,
    {
        if s[i] == x {
            return true;
        }
        i += 1;
    }
    false
}

/// The decision a member of an exposure bracket keeps: a suggested reject
/// becomes a review, and a review of keep quality whose only concern was
/// near duplication becomes a keep.
pub open spec fn bracket_decision(r: CullingEvidence) -> CullingDecision {
    if r.decision == CullingDecision::RejectSuggestion {
        CullingDecision::Review
    } else if r.decision == CullingDecision::Review && r.keep_quality
        && without(r.reasons@, CullingReason::NearDuplicate).len() == 0 {
        CullingDecision::Keep
    } else {
        r.decision
    }
}

/// The reasons a member of an exposure bracket keeps: never near duplication,
/// not low quality once its reject suggestion is lifted, and always its
/// bracket membership.
pub open spec fn bracket_reasons(r: CullingEvidence) -> Seq<CullingReason> {
    let kept = without(r.reasons@, CullingReason::NearDuplicate);
    let settled = if r.decision == CullingDecision::RejectSuggestion {
        without(kept, CullingReason::LowTechnicalQuality)
    } else {
        kept
    };
    if settled.contains(CullingReason::ExposureBracketMember) {
        settled
    } else {
        settled.push(CullingReason::ExposureBracketMember)
    }
}

/// `new` is `old` as a bracket member, all else unchanged.
pub open spec fn protected_as(old: CullingEvidence, new: CullingEvidence) -> bool {
    &&& new.asset_id == old.asset_id
    &&& new.decision == bracket_decision(old)
    &&& new.group_rank == old.group_rank
    &&& new.quality_key == old.quality_key
    &&& new.portrait_counts == old.portrait_counts
    &&& new.scene_tags@ == old.scene_tags@
    &&& new.reasons@ == bracket_reasons(old)
    &&& new.keep_quality == old.keep_quality
    &&& new.material_duplicate == old.material_duplicate
}

fn protected_member(r: &CullingEvidence) -> (res: CullingEvidence)
    ensures
        protected_as(*r, res),
{
    let kept = drop_reason(&r.reasons, CullingReason::NearDuplicate);
    let mut decision = r.decision;
    let mut reasons = kept;
    if r.decision == CullingDecision::RejectSuggestion {
        decision = CullingDecision::Review;
        reasons = drop_reason(&reasons, CullingReason::LowTechnicalQuality);
    } else if r.decision == CullingDecision::Review && r.keep_quality && reasons.len() == 0 {
        decision = CullingDecision::Keep;
    }
    if !has_reason(&reasons, CullingReason::ExposureBracketMember) {
        reasons.push(CullingReason::ExposureBracketMember);
    }
    let tags = r.scene_tags.clone();
    assert(tags@ =~= r.scene_tags@);
    CullingEvidence {
        asset_id: r.asset_id,
        decision,
        group_rank: r.group_rank,
        quality_key: r.quality_key,
        portrait_counts: r.portrait_counts,
        scene_tags: tags,
        reasons,
        keep_quality: r.keep_quality,
        material_duplicate: r.material_duplicate,
    }
}

/// Members of exposure brackets are source frames of a merge, not rivals:
/// each recommendation for a photo among `bracket_asset_ids` is settled as a
/// bracket member; the others are left as they are.
pub fn protect_exposure_bracket_members(recs: &mut Vec<CullingEvidence>, bracket_asset_ids: &[u128])
    ensures
        final(recs)@.len() == old(recs)@.len(),
        forall|i: int| 0 <= i < old(recs)@.len() ==> if bracket_asset_ids@.contains(#[trigger] old(recs)@[i].asset_id) {
            protected_as(old(recs)@[i], final(recs)@[i])
        } else {
            final(recs)@[i] == old(recs)@[i]
        },
{
    let ghost before = recs@;
    let mut i: usize = 0;
    while i < recs.len()
        invariant
            i <= recs@.len(),
            recs@.len() == before.len(),
            forall|k: int| i <= k < before.len() ==> recs@[k] == before[k],
            forall|k: int| 0 <= k < i ==> if bracket_asset_ids@.contains(#[trigger] before[k].asset_id) {
                protected_as(before[k], recs@[k])
            } else {
                recs@[k] == before[k]
            },
        decreases recs@.len() - i,
    {
        if crate::ids::id_listed(bracket_asset_ids, recs[i].asset_id) {
            let member = protected_member(&recs[i]);
            recs.set(i, member);
        }
        i += 1;
    }
}

/// The photographer's shortcut for one moment: keep the primary frame, and
/// sort each other frame into review or reject.
pub struct MomentQuickCullPlan {
    pub group_id: u128,
    pub primary_asset_id: u128,
    pub keep_asset_ids: Vec<u128>,
    pub review_asset_ids: Vec<u128>,
    pub reject_asset_ids: Vec<u128>,
    pub contains_people: bool,
    pub people_evidence_complete: bool,
    pub scene_evidence_complete: bool,
    pub scene_consistent: bool,
    pub shared_scene_tags: Vec<SceneTag>,
}

/// The position of the best-ranked recommendation; the first of them when
/// several share the best rank.
pub open spec fn first_min_rank(s: Seq<CullingEvidence>) -> int
    decreases s.len(),
{
    if s.len() <= 1 {
        0
    } else if s.last().group_rank < s[first_min_rank(s.drop_last())].group_rank {
        s.len() - 1
    } else {
        first_min_rank(s.drop_last())
    }
}

pub open spec fn any_people(s: Seq<CullingEvidence>) -> bool {
    exists|i: int| 0 <= i < s.len() && #[trigger] shows_people(s[i])
}

pub open spec fn in_every(s: Seq<CullingEvidence>, t: SceneTag) -> bool {
    forall|i: int| 0 <= i < s.len() ==> (#[trigger] s[i]).scene_tags@.contains(t)
}

/// The tags of `tags`, in order, that every recommendation carries.
pub open spec fn shared_tags(s: Seq<CullingEvidence>, tags: Seq<SceneTag>) -> Seq<SceneTag>
    decreases tags.len(),
{
    if tags.len() == 0 {
        tags
    } else if in_every(s, tags.last()) {
        shared_tags(s, tags.drop_last()).push(tags.last())
    } else {
        shared_tags(s, tags.drop_last())
    }
}

/// `sorted` with position `i` placed after every position of no greater rank.
pub open spec fn insert_by_rank(s: Seq<CullingEvidence>, sorted: Seq<int>, i: int) -> Seq<int>
    decreases sorted.len(),
{
    if sorted.len() == 0 || s[sorted.last()].group_rank <= s[i].group_rank {
        sorted.push(i)
    } else {
        insert_by_rank(s, sorted.drop_last(), i).push(sorted.last())
    }
}

/// The first `n` positions of `s` ordered by rank; equal ranks keep their
/// order.
pub open spec fn rank_order(s: Seq<CullingEvidence>, n: nat) -> Seq<int>
    decreases n,
{
    if n == 0 {
        Seq::empty()
    } else {
        insert_by_rank(s, rank_order(s, (n - 1) as nat), n - 1)
    }
}

/// A near duplicate of the first-ranked frame that is not a keep and scores
/// clearly lower.
pub open spec fn clear_duplicate(r: CullingEvidence) -> bool {
    r.reasons@.contains(CullingReason::NearDuplicate) && r.decision != CullingDecision::Keep && r.material_duplicate
}

pub open spec fn shares_tag(r: CullingEvidence, shared: Seq<SceneTag>) -> bool {
    exists|k: int| 0 <= k < r.scene_tags@.len() && shared.contains(#[trigger] r.scene_tags@[k])
}

/// A frame the quick cull rejects: the moment is settled, the frame shows a
/// shared scene tag, and it is a clear duplicate.
pub open spec fn quick_rejected(r: CullingEvidence, shared: Seq<SceneTag>, settled: bool) -> bool {
    settled && shares_tag(r, shared) && clear_duplicate(r)
}

/// The review and reject lists of the frames at positions `ord`, in that
/// order, skipping the primary. A frame is rejected only where `settled`
/// (complete people and scene evidence, no people, a consistent scene), it
/// shows a shared scene tag and it is a clear duplicate.
pub open spec fn quick_lists(s: Seq<CullingEvidence>, ord: Seq<int>, primary: u128, shared: Seq<SceneTag>, settled: bool) -> (Seq<u128>, Seq<u128>)
    decreases ord.len(),
{
    if ord.len() == 0 {
        (Seq::empty(), Seq::empty())
    } else {
        let lists = quick_lists(s, ord.drop_last(), primary, shared, settled);
        let r = s[ord.last()];
        if r.asset_id == primary {
            lists
        } else if quick_rejected(r, shared, settled) {
            (lists.0, lists.1.push(r.asset_id))
        } else {
            (lists.0.push(r.asset_id), lists.1)
        }
    }
}

/// A quick cull is offered for a moment of at least two scored frames with
/// nothing pending and no exposure bracket, whose best-ranked frame is
/// ranked first and kept.
pub open spec fn quick_cull_offered(s: Seq<CullingEvidence>, pending: nat, has_exposure_brackets: bool) -> bool {
    &&& s.len() >= 2
    &&& pending == 0
    &&& !has_exposure_brackets
    &&& s[first_min_rank(s)].group_rank == 1
    &&& s[first_min_rank(s)].decision == CullingDecision::Keep
}

/// The plan offered for `s`.
pub open spec fn quick_cull_plan_for(
    group_id: u128,
    s: Seq<CullingEvidence>,
    people_evidence_complete: bool,
    scene_evidence_complete: bool,
    p: MomentQuickCullPlan,
) -> bool {
    let primary = s[first_min_rank(s)];
    let shared = shared_tags(s, primary.scene_tags@);
    let people = any_people(s);
    let consistent = scene_evidence_complete && shared.len() > 0;
    let settled = people_evidence_complete && scene_evidence_complete && !people && consistent;
    let lists = quick_lists(s, rank_order(s, s.len()), primary.asset_id, shared, settled);
    &&& p.group_id == group_id
    &&& p.primary_asset_id == primary.asset_id
    &&& p.keep_asset_ids@ == seq![primary.asset_id]
    &&& p.review_asset_ids@ == lists.0
    &&& p.reject_asset_ids@ == lists.1
    &&& p.contains_people == people
    &&& p.people_evidence_complete == people_evidence_complete
    &&& p.scene_evidence_complete == scene_evidence_complete
    &&& p.scene_consistent == consistent
    &&& p.shared_scene_tags@ == shared
}

fn first_min_rank_index(recs: &Vec<CullingEvidence>) -> (res: usize)
    requires
        recs@.len() >= 1,
    ensures
        res == first_min_rank(recs@),
        res < recs@.len(),
{
    let mut k: usize = 0;
    let mut i: usize = 1;
    assert(recs@.subrange(0, 1).len() == 1);
    while i < recs.len()
        invariant
            1 <= i <= recs@.len(),
            k < i,
            k == first_min_rank(recs@.subrange(0, i as int)),
        decreases recs@.len() - i,
    {
        let ghost pre = recs@.subrange(0, i + 1);
        assert(pre.drop_last() =~= recs@.subrange(0, i as int));
        if recs[i].group_rank < recs[k].group_rank {
            k = i;
        }
        i += 1;
    }
    assert(recs@.subrange(0, recs@.len() as int) =~= recs@);
    k
}

fn people_in(recs: &Vec<CullingEvidence>) -> (res: bool)
    ensures
        res == any_people(recs@),
{
    let mut i: usize = 0;
    while i < recs.len()
        invariant
            i <= recs@.len(),
            forall|k: int| 0 <= k < i ==> !shows_people(#[trigger] recs@[k]),
        decreases recs@.len() - i,
    {
        if has_people(&recs[i]) {
            return true;
        }
        i += 1;
    }
    false
}

fn has_tag(tags: &Vec<SceneTag>, t: SceneTag) -> (res: bool)
    ensures
        res == tags@.contains(t),
{
    let mut i: usize = 0;
    while i < tags.len()
        invariant
            i <= tags@.len(),
            forall|k: int| 0 <= k < i ==> tags@[k] != t,
        decreases tags@.len() - i,
    {
        if tags[i] == t {
            return true;
        }
        i += 1;
    }
    false
}

fn tag_in_every(recs: &Vec<CullingEvidence>, t: SceneTag) -> (res: bool)
    ensures
        res == in_every(recs@, t),
{
    let mut i: usize = 0;
    while i < recs.len()
        invariant
            i <= recs@.len(),
            forall|k: int| 0 <= k < i ==> (#[trigger] recs@[k]).scene_tags@.contains(t),
        decreases recs@.len() - i,
    {
        if !has_tag(&recs[i].scene_tags, t) {
            return false;
        }
        i += 1;
    }
    true
}

fn shared_tags_of(recs: &Vec<CullingEvidence>, tags: &Vec<SceneTag>) -> (res: Vec<SceneTag>)
    ensures
        res@ == shared_tags(recs@, tags@),
{
    let mut out: Vec<SceneTag> = Vec::new();
    let mut i: usize = 0;
    while i < tags.len()
        invariant
            i <= tags@.len(),
            out@ == shared_tags(recs@, tags@.subrange(0, i as int)),
        decreases tags@.len() - i,
    {
        assert(tags@.subrange(0, i + 1).drop_last() =~= tags@.subrange(0, i as int));
        if tag_in_every(recs, tags[i]) {
            out.push(tags[i]);
        }
        i += 1;
    }
    assert(tags@.subrange(0, tags@.len() as int) =~= tags@);
    out
}

fn shares_tag_with(r: &CullingEvidence, shared: &Vec<SceneTag>) -> (res: bool)
    ensures
        res == shares_tag(*r, shared@),
{
    let mut k: usize = 0;
    while k < r.scene_tags.len()
        invariant
            k <= r.scene_tags@.len(),
            forall|j: int| 0 <= j < k ==> !shared@.contains(#[trigger] r.scene_tags@[j]),
        decreases r.scene_tags@.len() - k,
    {
        if has_tag(shared, r.scene_tags[k]) {
            return true;
        }
        k += 1;
    }
    false
}

/// Placing `i` into `sorted` is inserting it at `p`, the first position
/// after which every rank is greater.
proof fn lemma_insert_by_rank_at(s: Seq<CullingEvidence>, sorted: Seq<int>, i: int, p: int)
    requires
        0 <= p <= sorted.len(),
        p == 0 || s[sorted[p - 1]].group_rank <= s[i].group_rank,
        forall|q: int| p <= q < sorted.len() ==> s[#[trigger] sorted[q]].group_rank > s[i].group_rank,
    ensures
        insert_by_rank(s, sorted, i) == sorted.insert(p, i),
    decreases sorted.len(),
{
    if sorted.len() == 0 || s[sorted.last()].group_rank <= s[i].group_rank {
        if p < sorted.len() {
            assert(s[sorted[sorted.len() - 1]].group_rank > s[i].group_rank);
        }
        assert(sorted.push(i) =~= sorted.insert(p, i));
    } else {
        let rest = sorted.drop_last();
        assert forall|q: int| p <= q < rest.len() implies s[#[trigger] rest[q]].group_rank > s[i].group_rank by {
            assert(rest[q] == sorted[q]);
        }
        if p > 0 {
            assert(rest[p - 1] == sorted[p - 1]);
        }
        lemma_insert_by_rank_at(s, rest, i, p);
        assert(rest.insert(p, i).push(sorted.last()) =~= sorted.insert(p, i));
    }
}

fn rank_order_of(recs: &Vec<CullingEvidence>) -> (res: Vec<usize>)
    ensures
        res@.len() == rank_order(recs@, recs@.len()).len(),
        forall|q: int| 0 <= q < res@.len() ==> res@[q] as int == #[trigger] rank_order(recs@, recs@.len())[q],
        forall|q: int| 0 <= q < res@.len() ==> #[trigger] res@[q] < recs@.len(),
{
    let mut order: Vec<usize> = Vec::new();
    let ghost mut g: Seq<int> = Seq::empty();
    let mut i: usize = 0;
    while i < recs.len()
        invariant
            i <= recs@.len(),
            g == rank_order(recs@, i as nat),
            order@.len() == g.len(),
            forall|q: int| 0 <= q < order@.len() ==> order@[q] as int == #[trigger] g[q],
            forall|q: int| 0 <= q < order@.len() ==> #[trigger] order@[q] < i,
        decreases recs@.len() - i,
    {
        let mut p: usize = order.len();
        while p > 0 && recs[order[p - 1]].group_rank > recs[i].group_rank
            invariant
                p <= order@.len(),
                i < recs@.len(),
                order@.len() == g.len(),
                forall|q: int| 0 <= q < order@.len() ==> order@[q] as int == #[trigger] g[q],
                forall|q: int| 0 <= q < order@.len() ==> #[trigger] order@[q] < i,
                forall|q: int| p <= q < g.len() ==> recs@[#[trigger] g[q]].group_rank > recs@[i as int].group_rank,
            decreases p,
        {
            p -= 1;
        }
        proof {
            if p > 0 {
                assert(order@[p - 1] as int == g[p - 1]);
            }
            lemma_insert_by_rank_at(recs@, g, i as int, p as int);
            g = g.insert(p as int, i as int);
        }
        order.insert(p, i);
        i += 1;
    }
    order
}

/// The quick cull offered for one moment, if any (see `quick_cull_offered`
/// and `quick_cull_plan_for`). `recs` are the moment's recommendations,
/// `pending_asset_ids` its photos not yet scored.
pub fn build_moment_quick_cull_plan(
    group_id: u128,
    recs: &Vec<CullingEvidence>,
    pending_asset_ids: &[u128],
    has_exposure_brackets: bool,
    people_evidence_complete: bool,
    scene_evidence_complete: bool,
) -> (res: Option<MomentQuickCullPlan>)
    ensures
        res is Some <==> quick_cull_offered(recs@, pending_asset_ids@.len(), has_exposure_brackets),
        res matches Some(p) ==> quick_cull_plan_for(group_id, recs@, people_evidence_complete, scene_evidence_complete, p),
{
    if recs.len() < 2 || pending_asset_ids.len() > 0 || has_exposure_brackets {
        return None;
    }
    let pi = first_min_rank_index(recs);
    let primary = &recs[pi];
    if primary.group_rank != 1 || primary.decision != CullingDecision::Keep {
        return None;
    }
    let contains_people = people_in(recs);
    let shared = shared_tags_of(recs, &primary.scene_tags);
    let scene_consistent = scene_evidence_complete && shared.len() > 0;
    let settled = people_evidence_complete && scene_evidence_complete && !contains_people && scene_consistent;
    let order = rank_order_of(recs);
    let ghost ord = rank_order(recs@, recs@.len());
    let mut review: Vec<u128> = Vec::new();
    let mut reject: Vec<u128> = Vec::new();
    let mut j: usize = 0;
    while j < order.len()
        invariant
            j <= order@.len(),
            order@.len() == ord.len(),
            forall|q: int| 0 <= q < order@.len() ==> order@[q] as int == #[trigger] ord[q],
            forall|q: int| 0 <= q < order@.len() ==> #[trigger] order@[q] < recs@.len(),
            (review@, reject@) == quick_lists(recs@, ord.subrange(0, j as int), primary.asset_id, shared@, settled),
        decreases order@.len() - j,
    {
        assert(ord.subrange(0, j + 1).drop_last() =~= ord.subrange(0, j as int));
        assert(order@[j as int] as int == ord[j as int]);
        let r = &recs[order[j]];
        if r.asset_id != primary.asset_id {
            let clear = has_reason(&r.reasons, CullingReason::NearDuplicate)
                && r.decision != CullingDecision::Keep && r.material_duplicate;
            if settled && shares_tag_with(r, &shared) && clear {
                reject.push(r.asset_id);
            } else {
                review.push(r.asset_id);
            }
        }
        j += 1;
    }
    assert(ord.subrange(0, ord.len() as int) =~= ord);
    let mut keep: Vec<u128> = Vec::new();
    keep.push(primary.asset_id);
    Some(MomentQuickCullPlan {
        group_id,
        primary_asset_id: primary.asset_id,
        keep_asset_ids: keep,
        review_asset_ids: review,
        reject_asset_ids: reject,
        contains_people,
        people_evidence_complete,
        scene_evidence_complete,
        scene_consistent,
        shared_scene_tags: shared,
    })
}

/// Positions `o` of `s` in ascending rank.
pub open spec fn rank_sorted(s: Seq<CullingEvidence>, o: Seq<int>) -> bool {
    forall|j: int, k: int| 0 <= j < k < o.len() ==> s[#[trigger] o[j]].group_rank <= s[#[trigger] o[k]].group_rank
}

pub open spec fn no_repeat<T>(o: Seq<T>) -> bool {
    forall|j: int, k: int| 0 <= j < k < o.len() ==> #[trigger] o[j] != #[trigger] o[k]
}

proof fn lemma_insert_by_rank_props(s: Seq<CullingEvidence>, sorted: Seq<int>, i: int)
    requires
        rank_sorted(s, sorted),
    ensures
        insert_by_rank(s, sorted, i).len() == sorted.len() + 1,
        rank_sorted(s, insert_by_rank(s, sorted, i)),
        forall|x: int| #[trigger] insert_by_rank(s, sorted, i).contains(x) <==> (sorted.contains(x) || x == i),
        no_repeat(sorted) && !sorted.contains(i) ==> no_repeat(insert_by_rank(s, sorted, i)),
    decreases sorted.len(),
{
    let r = insert_by_rank(s, sorted, i);
    if sorted.len() == 0 || s[sorted.last()].group_rank <= s[i].group_rank {
        assert(r == sorted.push(i));
        assert forall|j: int, k: int| 0 <= j < k < r.len() implies s[#[trigger] r[j]].group_rank <= s[#[trigger] r[k]].group_rank by {
            if k == sorted.len() {
                assert(r[j] == sorted[j]);
                if j < sorted.len() - 1 {
                    assert(s[sorted[j]].group_rank <= s[sorted[sorted.len() - 1]].group_rank);
                }
            } else {
                assert(r[j] == sorted[j] && r[k] == sorted[k]);
            }
        }
        assert forall|x: int| #[trigger] r.contains(x) <==> (sorted.contains(x) || x == i) by {
            if sorted.contains(x) {
                let m = choose|m: int| 0 <= m < sorted.len() && sorted[m] == x;
                assert(r[m] == x);
            }
            if x == i {
                assert(r[sorted.len() as int] == i);
            }
        }
        if no_repeat(sorted) && !sorted.contains(i) {
            assert forall|j: int, k: int| 0 <= j < k < r.len() implies #[trigger] r[j] != #[trigger] r[k] by {
                assert(r[j] == sorted[j]);
                if k == sorted.len() {
                    assert(sorted.contains(sorted[j]));
                } else {
                    assert(r[k] == sorted[k]);
                }
            }
        }
    } else {
        let d = sorted.drop_last();
        let last = sorted.last();
        assert forall|j: int, k: int| 0 <= j < k < d.len() implies s[#[trigger] d[j]].group_rank <= s[#[trigger] d[k]].group_rank by {
            assert(d[j] == sorted[j] && d[k] == sorted[k]);
        }
        lemma_insert_by_rank_props(s, d, i);
        let q = insert_by_rank(s, d, i);
        assert(r == q.push(last));
        assert forall|m: int| 0 <= m < q.len() implies s[#[trigger] q[m]].group_rank <= s[last].group_rank by {
            assert(q.contains(q[m]));
            if q[m] != i {
                let t = choose|t: int| 0 <= t < d.len() && d[t] == q[m];
                assert(sorted[t] == d[t]);
                assert(s[sorted[t]].group_rank <= s[sorted[sorted.len() - 1]].group_rank);
            }
        }
        assert forall|j: int, k: int| 0 <= j < k < r.len() implies s[#[trigger] r[j]].group_rank <= s[#[trigger] r[k]].group_rank by {
            assert(r[j] == q[j]);
            if k < q.len() {
                assert(r[k] == q[k]);
            }
        }
        assert forall|x: int| #[trigger] r.contains(x) <==> (sorted.contains(x) || x == i) by {
            if r.contains(x) {
                let m = choose|m: int| 0 <= m < r.len() && r[m] == x;
                if m < q.len() {
                    assert(q[m] == x);
                    assert(q.contains(x));
                    if d.contains(x) {
                        let t = choose|t: int| 0 <= t < d.len() && d[t] == x;
                        assert(sorted[t] == x);
                    }
                } else {
                    assert(sorted[sorted.len() - 1] == x);
                }
            }
            if sorted.contains(x) {
                let m = choose|m: int| 0 <= m < sorted.len() && sorted[m] == x;
                if m < sorted.len() - 1 {
                    assert(d[m] == x);
                    assert(q.contains(x));
                    let t = choose|t: int| 0 <= t < q.len() && q[t] == x;
                    assert(r[t] == x);
                } else {
                    assert(r[q.len() as int] == x);
                }
            }
            if x == i {
                assert(q.contains(i));
                let t = choose|t: int| 0 <= t < q.len() && q[t] == i;
                assert(r[t] == i);
            }
        }
        if no_repeat(sorted) && !sorted.contains(i) {
            assert forall|j: int, k: int| 0 <= j < k < d.len() implies #[trigger] d[j] != #[trigger] d[k] by {
                assert(d[j] == sorted[j] && d[k] == sorted[k]);
            }
            assert(!d.contains(i)) by {
                if d.contains(i) {
                    let t = choose|t: int| 0 <= t < d.len() && d[t] == i;
                    assert(sorted[t] == i);
                }
            }
            assert(!q.contains(last)) by {
                if d.contains(last) {
                    let t = choose|t: int| 0 <= t < d.len() && d[t] == last;
                    assert(sorted[t] == sorted[sorted.len() - 1]);
                }
                assert(sorted.contains(last));
            }
            assert forall|j: int, k: int| 0 <= j < k < r.len() implies #[trigger] r[j] != #[trigger] r[k] by {
                assert(r[j] == q[j]);
                if k < q.len() {
                    assert(r[k] == q[k]);
                } else {
                    assert(q.contains(q[j]));
                }
            }
        }
    }
}

/// The rank order of the first `n` positions holds each of them once, in
/// ascending rank.
proof fn lemma_rank_order_props(s: Seq<CullingEvidence>, n: nat)
    ensures
        rank_order(s, n).len() == n,
        rank_sorted(s, rank_order(s, n)),
        no_repeat(rank_order(s, n)),
        forall|x: int| #[trigger] rank_order(s, n).contains(x) <==> 0 <= x < n,
    decreases n,
{
    if n > 0 {
        let prev = rank_order(s, (n - 1) as nat);
        lemma_rank_order_props(s, (n - 1) as nat);
        assert(!prev.contains(n - 1));
        lemma_insert_by_rank_props(s, prev, n - 1);
    }
}

/// No two recommendations are for the same photo.
pub open spec fn distinct_photos(s: Seq<CullingEvidence>) -> bool {
    forall|a: int, b: int| 0 <= a < b < s.len() ==> (#[trigger] s[a]).asset_id != (#[trigger] s[b]).asset_id
}

/// The photos listed in `ids` come in ascending rank.
pub open spec fn ids_in_rank_order(s: Seq<CullingEvidence>, ids: Seq<u128>) -> bool {
    forall|j: int, k: int, a: int, b: int|
        0 <= j < k < ids.len() && 0 <= a < s.len() && 0 <= b < s.len()
            && (#[trigger] s[a]).asset_id == #[trigger] ids[j] && (#[trigger] s[b]).asset_id == #[trigger] ids[k]
        ==> s[a].group_rank <= s[b].group_rank
}


proof fn lemma_push_in_rank_order(s: Seq<CullingEvidence>, l0: Seq<u128>, last: int)
    requires
        0 <= last < s.len(),
        distinct_photos(s),
        no_repeat(l0),
        ids_in_rank_order(s, l0),
        forall|x: u128| #[trigger] l0.contains(x) ==> x != s[last].asset_id
            && (forall|a: int| 0 <= a < s.len() && (#[trigger] s[a]).asset_id == x ==> s[a].group_rank <= s[last].group_rank),
    ensures
        no_repeat(l0.push(s[last].asset_id)),
        ids_in_rank_order(s, l0.push(s[last].asset_id)),
{
    let l = l0.push(s[last].asset_id);
    assert forall|j: int, k: int| 0 <= j < k < l.len() implies #[trigger] l[j] != #[trigger] l[k] by {
        assert(l[j] == l0[j]);
        if k < l0.len() {
            assert(l[k] == l0[k]);
        } else {
            assert(l0.contains(l0[j]));
        }
    }
    assert forall|j: int, k: int, a: int, b: int|
        0 <= j < k < l.len() && 0 <= a < s.len() && 0 <= b < s.len()
            && (#[trigger] s[a]).asset_id == #[trigger] l[j] && (#[trigger] s[b]).asset_id == #[trigger] l[k]
        implies s[a].group_rank <= s[b].group_rank by {
        assert(l[j] == l0[j]);
        if k < l0.len() {
            assert(l[k] == l0[k]);
        } else {
            assert(l0.contains(l0[j]));
            if b != last {
                if b < last {
                    assert(s[b].asset_id != s[last].asset_id);
                } else {
                    assert(s[last].asset_id != s[b].asset_id);
                }
            }
        }
    }
}

#[verifier::spinoff_prover]
#[verifier::rlimit(40)]
proof fn lemma_quick_lists(s: Seq<CullingEvidence>, ord: Seq<int>, primary: u128, shared: Seq<SceneTag>, settled: bool)
    requires
        distinct_photos(s),
        no_repeat(ord),
        rank_sorted(s, ord),
        forall|j: int| 0 <= j < ord.len() ==> 0 <= #[trigger] ord[j] < s.len(),
    ensures
        ({
            let (rev, rej) = quick_lists(s, ord, primary, shared, settled);
            &&& forall|x: u128| #[trigger] rev.contains(x) <==> exists|j: int| 0 <= j < ord.len()
                && s[#[trigger] ord[j]].asset_id == x && x != primary && !quick_rejected(s[ord[j]], shared, settled)
            &&& forall|x: u128| #[trigger] rej.contains(x) <==> exists|j: int| 0 <= j < ord.len()
                && s[#[trigger] ord[j]].asset_id == x && x != primary && quick_rejected(s[ord[j]], shared, settled)
            &&& no_repeat(rev)
            &&& no_repeat(rej)
            &&& ids_in_rank_order(s, rev)
            &&& ids_in_rank_order(s, rej)
        }),
    decreases ord.len(),
{
    if ord.len() > 0 {
        let d = ord.drop_last();
        assert forall|j: int, k: int| 0 <= j < k < d.len() implies #[trigger] d[j] != #[trigger] d[k] by {
            assert(d[j] == ord[j] && d[k] == ord[k]);
        }
        assert forall|j: int, k: int| 0 <= j < k < d.len() implies s[#[trigger] d[j]].group_rank <= s[#[trigger] d[k]].group_rank by {
            assert(d[j] == ord[j] && d[k] == ord[k]);
        }
        assert forall|j: int| 0 <= j < d.len() implies 0 <= #[trigger] d[j] < s.len() by {
            assert(d[j] == ord[j]);
        }
        lemma_quick_lists(s, d, primary, shared, settled);
        let (rev0, rej0) = quick_lists(s, d, primary, shared, settled);
        let n = ord.len() - 1;
        let last = ord[n];
        let r = s[last];
        assert(ord.last() == last);
        // Every photo already listed lies at an earlier position, with no greater rank and another id.
        assert forall|x: u128| rev0.contains(x) || rej0.contains(x) implies x != r.asset_id
            && (forall|a: int| 0 <= a < s.len() && (#[trigger] s[a]).asset_id == x ==> s[a].group_rank <= r.group_rank) by {
            let j = if rev0.contains(x) {
                choose|j: int| 0 <= j < d.len() && s[#[trigger] d[j]].asset_id == x && x != primary && !quick_rejected(s[d[j]], shared, settled)
            } else {
                choose|j: int| 0 <= j < d.len() && s[#[trigger] d[j]].asset_id == x && x != primary && quick_rejected(s[d[j]], shared, settled)
            };
            assert(d[j] == ord[j]);
            assert(ord[j] != ord[n]);
            if ord[j] < last {
                assert(s[ord[j]].asset_id != s[last].asset_id);
            } else {
                assert(s[last].asset_id != s[ord[j]].asset_id);
            }
            assert(s[ord[j]].group_rank <= s[ord[n]].group_rank);
            assert forall|a: int| 0 <= a < s.len() && (#[trigger] s[a]).asset_id == x implies s[a].group_rank <= r.group_rank by {
                if a != ord[j] {
                    if a < ord[j] {
                        assert(s[a].asset_id != s[ord[j]].asset_id);
                    } else {
                        assert(s[ord[j]].asset_id != s[a].asset_id);
                    }
                }
            }
        }
        let (rev, rej) = quick_lists(s, ord, primary, shared, settled);
        assert forall|x: u128| #[trigger] rev.contains(x) <==> exists|j: int| 0 <= j < ord.len()
            && s[#[trigger] ord[j]].asset_id == x && x != primary && !quick_rejected(s[ord[j]], shared, settled) by {
            if exists|j: int| 0 <= j < ord.len() && s[#[trigger] ord[j]].asset_id == x && x != primary && !quick_rejected(s[ord[j]], shared, settled) {
                let j = choose|j: int| 0 <= j < ord.len() && s[#[trigger] ord[j]].asset_id == x && x != primary && !quick_rejected(s[ord[j]], shared, settled);
                if j < n {
                    assert(d[j] == ord[j]);
                    assert(rev0.contains(x));
                    let t = choose|t: int| 0 <= t < rev0.len() && rev0[t] == x;
                    assert(rev[t] == x);
                } else {
                    assert(rev == rev0.push(x));
                    assert(rev[rev0.len() as int] == x);
                }
            }
            if rev.contains(x) {
                let t = choose|t: int| 0 <= t < rev.len() && rev[t] == x;
                if t < rev0.len() && (rev == rev0 || rev == rev0.push(r.asset_id)) {
                    assert(rev0[t] == x);
                    assert(rev0.contains(x));
                    let j = choose|j: int| 0 <= j < d.len() && s[#[trigger] d[j]].asset_id == x && x != primary && !quick_rejected(s[d[j]], shared, settled);
                    assert(ord[j] == d[j]);
                } else {
                    assert(x == r.asset_id);
                    assert(s[ord[n]].asset_id == x);
                }
            }
        }
        assert forall|x: u128| #[trigger] rej.contains(x) <==> exists|j: int| 0 <= j < ord.len()
            && s[#[trigger] ord[j]].asset_id == x && x != primary && quick_rejected(s[ord[j]], shared, settled) by {
            if exists|j: int| 0 <= j < ord.len() && s[#[trigger] ord[j]].asset_id == x && x != primary && quick_rejected(s[ord[j]], shared, settled) {
                let j = choose|j: int| 0 <= j < ord.len() && s[#[trigger] ord[j]].asset_id == x && x != primary && quick_rejected(s[ord[j]], shared, settled);
                if j < n {
                    assert(d[j] == ord[j]);
                    assert(rej0.contains(x));
                    let t = choose|t: int| 0 <= t < rej0.len() && rej0[t] == x;
                    assert(rej[t] == x);
                } else {
                    assert(rej == rej0.push(x));
                    assert(rej[rej0.len() as int] == x);
                }
            }
            if rej.contains(x) {
                let t = choose|t: int| 0 <= t < rej.len() && rej[t] == x;
                if t < rej0.len() && (rej == rej0 || rej == rej0.push(r.asset_id)) {
                    assert(rej0[t] == x);
                    assert(rej0.contains(x));
                    let j = choose|j: int| 0 <= j < d.len() && s[#[trigger] d[j]].asset_id == x && x != primary && quick_rejected(s[d[j]], shared, settled);
                    assert(ord[j] == d[j]);
                } else {
                    assert(x == r.asset_id);
                    assert(s[ord[n]].asset_id == x);
                }
            }
        }
        if rev != rev0 {
            assert(rev == rev0.push(r.asset_id));
            lemma_push_in_rank_order(s, rev0, last);
        }
        if rej != rej0 {
            assert(rej == rej0.push(r.asset_id));
            lemma_push_in_rank_order(s, rej0, last);
        }
    }
}

proof fn lemma_unsettled_rejects_nothing(s: Seq<CullingEvidence>, ord: Seq<int>, primary: u128, shared: Seq<SceneTag>)
    ensures
        quick_lists(s, ord, primary, shared, false).1.len() == 0,
    decreases ord.len(),
{
    if ord.len() > 0 {
        lemma_unsettled_rejects_nothing(s, ord.drop_last(), primary, shared);
    }
}

proof fn lemma_first_min_rank(s: Seq<CullingEvidence>)
    requires
        s.len() > 0,
    ensures
        0 <= first_min_rank(s) < s.len(),
        forall|i: int| 0 <= i < s.len() ==> s[first_min_rank(s)].group_rank <= (#[trigger] s[i]).group_rank,
    decreases s.len(),
{
    if s.len() > 1 {
        let d = s.drop_last();
        lemma_first_min_rank(d);
        assert forall|i: int| 0 <= i < s.len() implies s[first_min_rank(s)].group_rank <= (#[trigger] s[i]).group_rank by {
            if i < s.len() - 1 {
                assert(s[i] == d[i]);
            }
        }
    }
}

proof fn lemma_shared_tags(s: Seq<CullingEvidence>, tags: Seq<SceneTag>)
    ensures
        forall|t: SceneTag| #[trigger] shared_tags(s, tags).contains(t) ==> tags.contains(t) && in_every(s, t),
    decreases tags.len(),
{
    if tags.len() > 0 {
        lemma_shared_tags(s, tags.drop_last());
        let rest = shared_tags(s, tags.drop_last());
        assert forall|t: SceneTag| #[trigger] shared_tags(s, tags).contains(t) implies tags.contains(t) && in_every(s, t) by {
            let all = shared_tags(s, tags);
            let k = choose|k: int| 0 <= k < all.len() && all[k] == t;
            if k < rest.len() && (all == rest || all == rest.push(tags.last())) {
                assert(rest[k] == t);
                assert(rest.contains(t));
                let m = choose|m: int| 0 <= m < tags.drop_last().len() && tags.drop_last()[m] == t;
                assert(tags[m] == t);
            } else {
                assert(tags[tags.len() - 1] == t);
            }
        }
    }
}

/// The frame a quick cull keeps is a best-ranked frame of the moment, and
/// the scene tags it calls shared are tags of that frame carried by every
/// frame of the moment.
pub proof fn quick_cull_keeps_the_best_ranked_frame(
    group_id: u128,
    s: Seq<CullingEvidence>,
    people_evidence_complete: bool,
    scene_evidence_complete: bool,
    p: MomentQuickCullPlan,
)
    requires
        quick_cull_plan_for(group_id, s, people_evidence_complete, scene_evidence_complete, p),
        s.len() > 0,
    ensures
        exists|j: int| 0 <= j < s.len() && (#[trigger] s[j]).asset_id == p.primary_asset_id
            && (forall|i: int| 0 <= i < s.len() ==> s[j].group_rank <= (#[trigger] s[i]).group_rank)
            && (forall|t: SceneTag| #[trigger] p.shared_scene_tags@.contains(t) ==> s[j].scene_tags@.contains(t)),
        forall|t: SceneTag, i: int| 0 <= i < s.len() && #[trigger] p.shared_scene_tags@.contains(t)
            ==> (#[trigger] s[i]).scene_tags@.contains(t),
{
    lemma_first_min_rank(s);
    let j = first_min_rank(s);
    lemma_shared_tags(s, s[j].scene_tags@);
    assert(s[j].asset_id == p.primary_asset_id);
}

/// A quick cull rejects nothing in a moment that shows people, nor where the
/// people or scene evidence is incomplete: every alternate stays for review.
pub proof fn quick_cull_spares_people_and_unknowns(
    group_id: u128,
    s: Seq<CullingEvidence>,
    people_evidence_complete: bool,
    scene_evidence_complete: bool,
    p: MomentQuickCullPlan,
)
    requires
        quick_cull_plan_for(group_id, s, people_evidence_complete, scene_evidence_complete, p),
        any_people(s) || !people_evidence_complete || !scene_evidence_complete,
    ensures
        p.reject_asset_ids@.len() == 0,
{
    let primary = s[first_min_rank(s)];
    let shared = shared_tags(s, primary.scene_tags@);
    lemma_unsettled_rejects_nothing(s, rank_order(s, s.len()), primary.asset_id, shared);
}

/// A quick cull rejects nothing in a moment where a person or a face was
/// detected on some frame.
pub proof fn quick_cull_spares_frames_with_people(
    group_id: u128,
    s: Seq<CullingEvidence>,
    people_evidence_complete: bool,
    scene_evidence_complete: bool,
    p: MomentQuickCullPlan,
    i: int,
)
    requires
        quick_cull_plan_for(group_id, s, people_evidence_complete, scene_evidence_complete, p),
        0 <= i < s.len(),
        s[i].portrait_counts matches Some((persons, faces)) && (persons > 0 || faces > 0),
    ensures
        p.reject_asset_ids@.len() == 0,
        p.contains_people,
{
    assert(shows_people(s[i]));
    quick_cull_spares_people_and_unknowns(group_id, s, people_evidence_complete, scene_evidence_complete, p);
}

/// The quick cull sorts every frame of the moment once: the primary is the
/// only keep; every other photo is in exactly one of the review and reject
/// lists, each listing a photo once and in ascending rank; a rejected photo
/// is a clear duplicate that shows a shared scene tag: a near duplicate of
/// the first-ranked frame, not a keep, and scoring materially lower (a frame
/// that is not such a material duplicate always stays for review); and
/// nothing is rejected unless both kinds of evidence are complete, no people
/// are shown and the scene is consistent.
pub proof fn quick_cull_sorts_every_alternate(
    group_id: u128,
    s: Seq<CullingEvidence>,
    people_evidence_complete: bool,
    scene_evidence_complete: bool,
    p: MomentQuickCullPlan,
)
    requires
        quick_cull_plan_for(group_id, s, people_evidence_complete, scene_evidence_complete, p),
        distinct_photos(s),
    ensures
        p.keep_asset_ids@ == seq![p.primary_asset_id],
        forall|i: int| 0 <= i < s.len() && (#[trigger] s[i]).asset_id != p.primary_asset_id
            ==> (p.review_asset_ids@.contains(s[i].asset_id) <==> !p.reject_asset_ids@.contains(s[i].asset_id)),
        forall|x: u128| #[trigger] p.review_asset_ids@.contains(x)
            ==> x != p.primary_asset_id && exists|i: int| 0 <= i < s.len() && (#[trigger] s[i]).asset_id == x,
        forall|x: u128| #[trigger] p.reject_asset_ids@.contains(x)
            ==> x != p.primary_asset_id && exists|i: int| 0 <= i < s.len() && (#[trigger] s[i]).asset_id == x,
        no_repeat(p.review_asset_ids@),
        no_repeat(p.reject_asset_ids@),
        ids_in_rank_order(s, p.review_asset_ids@),
        ids_in_rank_order(s, p.reject_asset_ids@),
        forall|i: int| 0 <= i < s.len() && p.reject_asset_ids@.contains(#[trigger] s[i].asset_id)
            ==> clear_duplicate(s[i]) && shares_tag(s[i], p.shared_scene_tags@),
        forall|i: int| 0 <= i < s.len() && p.reject_asset_ids@.contains(#[trigger] s[i].asset_id)
            ==> s[i].material_duplicate && s[i].reasons@.contains(CullingReason::NearDuplicate)
                && s[i].decision != CullingDecision::Keep
                && exists|t: SceneTag| s[i].scene_tags@.contains(t) && #[trigger] p.shared_scene_tags@.contains(t),
        forall|i: int| 0 <= i < s.len() && (#[trigger] s[i]).asset_id != p.primary_asset_id
            && (!s[i].material_duplicate || !s[i].reasons@.contains(CullingReason::NearDuplicate)
                || s[i].decision == CullingDecision::Keep)
            ==> p.review_asset_ids@.contains(s[i].asset_id) && !p.reject_asset_ids@.contains(s[i].asset_id),
        p.reject_asset_ids@.len() > 0 ==> people_evidence_complete && scene_evidence_complete
            && !p.contains_people && p.scene_consistent,
{
    let primary = s[first_min_rank(s)];
    let shared = shared_tags(s, primary.scene_tags@);
    let people = any_people(s);
    let consistent = scene_evidence_complete && shared.len() > 0;
    let settled = people_evidence_complete && scene_evidence_complete && !people && consistent;
    let ord = rank_order(s, s.len());
    lemma_rank_order_props(s, s.len());
    assert forall|j: int| 0 <= j < ord.len() implies 0 <= #[trigger] ord[j] < s.len() by {
        assert(ord.contains(ord[j]));
    }
    lemma_quick_lists(s, ord, primary.asset_id, shared, settled);
    let (rev, rej) = quick_lists(s, ord, primary.asset_id, shared, settled);
    assert(rev == p.review_asset_ids@ && rej == p.reject_asset_ids@);
    assert forall|i: int| 0 <= i < s.len() && (#[trigger] s[i]).asset_id != p.primary_asset_id
        implies (rev.contains(s[i].asset_id) <==> !rej.contains(s[i].asset_id)) by {
        assert(ord.contains(i));
        let j = choose|j: int| 0 <= j < ord.len() && ord[j] == i;
        let x = s[i].asset_id;
        if quick_rejected(s[i], shared, settled) {
            assert(s[ord[j]].asset_id == x);
            if rev.contains(x) {
                let k = choose|k: int| 0 <= k < ord.len() && s[#[trigger] ord[k]].asset_id == x && x != primary.asset_id
                    && !quick_rejected(s[ord[k]], shared, settled);
                if ord[k] != i {
                    if ord[k] < i { assert(s[ord[k]].asset_id != s[i].asset_id); } else { assert(s[i].asset_id != s[ord[k]].asset_id); }
                }
            }
        } else {
            assert(s[ord[j]].asset_id == x);
            if rej.contains(x) {
                let k = choose|k: int| 0 <= k < ord.len() && s[#[trigger] ord[k]].asset_id == x && x != primary.asset_id
                    && quick_rejected(s[ord[k]], shared, settled);
                if ord[k] != i {
                    if ord[k] < i { assert(s[ord[k]].asset_id != s[i].asset_id); } else { assert(s[i].asset_id != s[ord[k]].asset_id); }
                }
            }
        }
    }
    assert forall|x: u128| #[trigger] rev.contains(x)
        implies x != p.primary_asset_id && exists|i: int| 0 <= i < s.len() && (#[trigger] s[i]).asset_id == x by {
        let k = choose|k: int| 0 <= k < ord.len() && s[#[trigger] ord[k]].asset_id == x && x != primary.asset_id
            && !quick_rejected(s[ord[k]], shared, settled);
        assert(ord.contains(ord[k]));
        assert(s[ord[k]].asset_id == x);
    }
    assert forall|x: u128| #[trigger] rej.contains(x)
        implies x != p.primary_asset_id && exists|i: int| 0 <= i < s.len() && (#[trigger] s[i]).asset_id == x by {
        let k = choose|k: int| 0 <= k < ord.len() && s[#[trigger] ord[k]].asset_id == x && x != primary.asset_id
            && quick_rejected(s[ord[k]], shared, settled);
        assert(ord.contains(ord[k]));
        assert(s[ord[k]].asset_id == x);
    }
    assert forall|i: int| 0 <= i < s.len() && rej.contains(#[trigger] s[i].asset_id)
        implies clear_duplicate(s[i]) && shares_tag(s[i], shared) by {
        let x = s[i].asset_id;
        let k = choose|k: int| 0 <= k < ord.len() && s[#[trigger] ord[k]].asset_id == x && x != primary.asset_id
            && quick_rejected(s[ord[k]], shared, settled);
        assert(ord.contains(ord[k]));
        if ord[k] != i {
            if ord[k] < i { assert(s[ord[k]].asset_id != s[i].asset_id); } else { assert(s[i].asset_id != s[ord[k]].asset_id); }
        }
    }
    assert forall|i: int| 0 <= i < s.len() && rej.contains(#[trigger] s[i].asset_id)
        implies exists|t: SceneTag| s[i].scene_tags@.contains(t) && #[trigger] p.shared_scene_tags@.contains(t) by {
        assert(shares_tag(s[i], shared));
        let k = choose|k: int| 0 <= k < s[i].scene_tags@.len() && shared.contains(#[trigger] s[i].scene_tags@[k]);
        assert(s[i].scene_tags@.contains(s[i].scene_tags@[k]));
    }
    if rej.len() > 0 {
        assert(rej.contains(rej[0]));
        let x = rej[0];
        let k = choose|k: int| 0 <= k < ord.len() && s[#[trigger] ord[k]].asset_id == x && x != primary.asset_id
            && quick_rejected(s[ord[k]], shared, settled);
    }
}


// ----- what the analysis left for a group -----

/// What the analysis cache holds for one photo of a group: a quality score,
/// and a segmentation (people and scene evidence).
#[derive(PartialEq, Eq, Structural, Clone, Copy, Debug)]
pub struct AssetEvidenceFound {
    pub asset_id: u128,
    pub has_quality_score: bool,
    pub has_segmentation: bool,
}

/// A group's evidence bookkeeping: the photos still waiting for a quality
/// score, in group order, and whether people and scene evidence is complete
/// for the photos that were scored.
pub struct GroupEvidenceStatus {
    pub pending_asset_ids: Vec<u128>,
    pub people_evidence_complete: bool,
    pub scene_evidence_complete: bool,
}

/// The photos of `found` without a quality score, in order.
pub open spec fn pending_of(found: Seq<AssetEvidenceFound>) -> Seq<u128>
    decreases found.len(),
{
    if found.len() == 0 {
        Seq::empty()
    } else {
        let rest = pending_of(found.drop_last());
        if found.last().has_quality_score { rest } else { rest.push(found.last().asset_id) }
    }
}

/// Every scored photo has its segmentation; a photo still waiting for its
/// score is not asked for one.
pub open spec fn segmentation_complete(found: Seq<AssetEvidenceFound>) -> bool {
    forall|i: int| 0 <= i < found.len() && (#[trigger] found[i]).has_quality_score ==> found[i].has_segmentation
}

pub fn group_evidence_status(found: &Vec<AssetEvidenceFound>) -> (res: GroupEvidenceStatus)
    ensures
        res.pending_asset_ids@ == pending_of(found@),
        res.people_evidence_complete == segmentation_complete(found@),
        res.scene_evidence_complete == segmentation_complete(found@),
{
    let mut pending: Vec<u128> = Vec::new();
    let mut complete = true;
    let mut i: usize = 0;
    while i < found.len()
        invariant
            i <= found@.len(),
            pending@ == pending_of(found@.subrange(0, i as int)),
            complete == segmentation_complete(found@.subrange(0, i as int)),
        decreases found@.len() - i,
    {
        let f = found[i];
        let ghost pre = found@.subrange(0, i as int);
        let ghost next = found@.subrange(0, i + 1);
        assert(next.drop_last() =~= pre);
        assert(next.last() == f);
        if f.has_quality_score {
            if !f.has_segmentation {
                complete = false;
                assert(next[i as int] == f);
            }
        } else {
            pending.push(f.asset_id);
        }
        proof {
            if complete {
                assert forall|k: int| 0 <= k < next.len() && (#[trigger] next[k]).has_quality_score implies next[k].has_segmentation by {
                    if k < i {
                        assert(next[k] == pre[k]);
                    }
                }
            } else if segmentation_complete(pre) {
                assert(next[i as int] == f);
            } else {
                let k = choose|k: int| 0 <= k < pre.len() && (#[trigger] pre[k]).has_quality_score && !pre[k].has_segmentation;
                assert(next[k] == pre[k]);
            }
        }
        i += 1;
    }
    assert(found@.subrange(0, found@.len() as int) =~= found@);
    GroupEvidenceStatus { pending_asset_ids: pending, people_evidence_complete: complete, scene_evidence_complete: complete }
}

} // verus!
