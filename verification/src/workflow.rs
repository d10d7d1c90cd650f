//! Where a batch stands in the workflow, and what the review of a group's
//! edits has to look at. The facts are read by the application from the
//! stores and caches; what they add up to is decided here.

use vstd::prelude::*;
use crate::batch::{Batch, JobStatus};
use crate::culling::CullingDecision;
use crate::culling_store::CullingUserDecision;

verus! {

// ----- the review of a group's edits -----

/// What the review of one photo's edit knows about it.
#[derive(PartialEq, Eq, Structural, Clone, Copy, Debug)]
pub struct RecipeReviewSignal {
    pub confirmed: bool,
    pub has_exception: bool,
    pub user_decision: Option<CullingUserDecision>,
    pub ai_decision: Option<CullingDecision>,
    pub evidence_pending: bool,
}

/// What the stores hold for one editable photo of a group: whether an edit
/// recipe was resolved for it, whether that recipe is confirmed and has a
/// recorded exception, the photographer's cull decision, the suggested one,
/// and whether the photo still waits for its culling score.
#[derive(PartialEq, Eq, Structural, Clone, Copy, Debug)]
pub struct RecipeReviewAssetFacts {
    pub asset_id: u128,
    pub has_recipe: bool,
    pub recipe_confirmed: bool,
    pub has_exception: bool,
    pub user_decision: Option<CullingUserDecision>,
    pub ai_decision: Option<CullingDecision>,
    pub culling_pending: bool,
}

/// The review signal of a photo. Without a recipe there is nothing to review
/// yet: the evidence is pending and nothing else is known. With one, its
/// evidence is pending while it is unconfirmed, undecided by the
/// photographer, and either still waiting for its score or without a
/// suggestion.
pub open spec fn signal_of(f: RecipeReviewAssetFacts) -> RecipeReviewSignal {
    if !f.has_recipe {
        RecipeReviewSignal { confirmed: false, has_exception: false, user_decision: None, ai_decision: None, evidence_pending: true }
    } else {
        RecipeReviewSignal {
            confirmed: f.recipe_confirmed,
            has_exception: f.has_exception,
            user_decision: f.user_decision,
            ai_decision: f.ai_decision,
            evidence_pending: !f.recipe_confirmed && f.user_decision is None
                && (f.culling_pending || f.ai_decision is None),
        }
    }
}

pub fn recipe_review_signal(f: &RecipeReviewAssetFacts) -> (res: RecipeReviewSignal)
    ensures
        res == signal_of(*f),
{
    if !f.has_recipe {
        return RecipeReviewSignal { confirmed: false, has_exception: false, user_decision: None, ai_decision: None, evidence_pending: true };
    }
    let undecided = match f.user_decision {
        None => true,
        Some(_) => false,
    };
    let unsuggested = match f.ai_decision {
        None => true,
        Some(_) => false,
    };
    RecipeReviewSignal {
        confirmed: f.recipe_confirmed,
        has_exception: f.has_exception,
        user_decision: f.user_decision,
        ai_decision: f.ai_decision,
        evidence_pending: !f.recipe_confirmed && undecided && (f.culling_pending || unsuggested),
    }
}

/// Why the edits of a group cannot be reviewed.
#[derive(PartialEq, Eq, Structural, Clone, Copy, Debug)]
pub enum RecipeReviewPreflightError {
    GroupNotFound(u128),
    /// A reference photo must be selected before the edits are reviewed.
    NoReference(u128),
    /// The selected reference is explicitly rejected; another must be chosen.
    ReferenceRejected(u128),
}

/// What the review of a group's edits starts from: whether the group exists,
/// whether it has a reference and whether that reference is rejected, and
/// the facts of each editable photo, in group order.
pub struct RecipeReviewGroupFacts {
    pub group_id: u128,
    pub group_found: bool,
    pub has_reference: bool,
    pub reference_rejected: bool,
    pub assets: Vec<RecipeReviewAssetFacts>,
}

/// The review signals of a group's editable photos, in order, once the
/// group is found, has a reference, and that reference is not rejected (the
/// first of these that fails is the error).
pub fn recipe_review_preflight(facts: &RecipeReviewGroupFacts) -> (res: Result<Vec<(u128, RecipeReviewSignal)>, RecipeReviewPreflightError>)
    ensures
        !facts.group_found ==> res == Err::<Vec<(u128, RecipeReviewSignal)>, RecipeReviewPreflightError>(
            RecipeReviewPreflightError::GroupNotFound(facts.group_id)),
        facts.group_found && !facts.has_reference ==> res == Err::<Vec<(u128, RecipeReviewSignal)>, RecipeReviewPreflightError>(
            RecipeReviewPreflightError::NoReference(facts.group_id)),
        facts.group_found && facts.has_reference && facts.reference_rejected ==> res
            == Err::<Vec<(u128, RecipeReviewSignal)>, RecipeReviewPreflightError>(RecipeReviewPreflightError::ReferenceRejected(facts.group_id)),
        facts.group_found && facts.has_reference && !facts.reference_rejected ==> (res matches Ok(v)
            && v@ == facts.assets@.map_values(|f: RecipeReviewAssetFacts| (f.asset_id, signal_of(f)))),
{
    if !facts.group_found {
        return Err(RecipeReviewPreflightError::GroupNotFound(facts.group_id));
    }
    if !facts.has_reference {
        return Err(RecipeReviewPreflightError::NoReference(facts.group_id));
    }
    if facts.reference_rejected {
        return Err(RecipeReviewPreflightError::ReferenceRejected(facts.group_id));
    }
    let mut out: Vec<(u128, RecipeReviewSignal)> = Vec::new();
    let mut i: usize = 0;
    while i < facts.assets.len()
        invariant
            i <= facts.assets@.len(),
            out@ == facts.assets@.subrange(0, i as int).map_values(|f: RecipeReviewAssetFacts| (f.asset_id, signal_of(f))),
        decreases facts.assets@.len() - i,
    {
        let f = &facts.assets[i];
        out.push((f.asset_id, recipe_review_signal(f)));
        i += 1;
        assert(out@ =~= facts.assets@.subrange(0, i as int).map_values(|f: RecipeReviewAssetFacts| (f.asset_id, signal_of(f))));
    }
    assert(facts.assets@.subrange(0, i as int) =~= facts.assets@);
    Ok(out)
}

// ----- where a batch stands -----

/// How a group's delivery to Lightroom resolved: not at all (no exposure
/// analysis, no recipe, a photo missing from the catalog, or a failed sidecar
/// preflight), or into sidecars of which some conflict with the recipe and
/// some are still to be written.
#[derive(PartialEq, Eq, Structural, Clone, Copy, Debug)]
pub enum GroupDelivery {
    Unresolved,
    Sidecars { conflicts: usize, missing: usize },
}

/// What the stores hold for one group of a batch, as the workflow status
/// reads it. `pending_reviewed[i]` tells whether the photographer decided on
/// the `i`-th photo still waiting for its culling score;
/// `recommendations[i]` whether the photographer decided on the `i`-th
/// recommended photo, and what was suggested for it. `review_attention` and
/// `review_pending` come from the review of the group's edits, `delivery`
/// from resolving its recipes; both are read only for a group with an
/// editable photo and a usable reference.
pub struct GroupWorkflowObservation {
    pub pending_reviewed: Vec<bool>,
    pub recommendations: Vec<(bool, CullingDecision)>,
    pub has_exposure_brackets: bool,
    pub hdr_merge_completed: bool,
    pub editable_empty: bool,
    pub has_reference: bool,
    pub reference_rejected: bool,
    pub review_attention: usize,
    pub review_pending: bool,
    pub delivery: GroupDelivery,
}

/// The counts the workflow status is derived from.
#[derive(PartialEq, Eq, Structural, Clone, Copy, Debug)]
pub struct WorkflowFacts {
    pub preparation_active: usize,
    pub preparation_failed: usize,
    pub groups_total: usize,
    pub cull_pending: usize,
    pub cull_attention: usize,
    pub review_attention: usize,
    pub review_pending_groups: usize,
    pub reference_attention_groups: usize,
    pub lightroom_hdr_merge_groups: usize,
    pub lightroom_unresolved_groups: usize,
    pub lightroom_conflict_groups: usize,
    pub lightroom_missing_sidecars: usize,
    pub lightroom_current_groups: usize,
}

/// The counts that groups add to.
#[derive(PartialEq, Eq, Structural, Clone, Copy, Debug)]
pub enum GroupCount {
    CullPending,
    CullAttention,
    ReviewAttention,
    ReviewPendingGroups,
    ReferenceAttentionGroups,
    HdrMergeGroups,
    UnresolvedGroups,
    ConflictGroups,
    MissingSidecars,
    CurrentGroups,
}

pub open spec fn count_of(f: WorkflowFacts, c: GroupCount) -> nat {
    match c {
        GroupCount::CullPending => f.cull_pending as nat,
        GroupCount::CullAttention => f.cull_attention as nat,
        GroupCount::ReviewAttention => f.review_attention as nat,
        GroupCount::ReviewPendingGroups => f.review_pending_groups as nat,
        GroupCount::ReferenceAttentionGroups => f.reference_attention_groups as nat,
        GroupCount::HdrMergeGroups => f.lightroom_hdr_merge_groups as nat,
        GroupCount::UnresolvedGroups => f.lightroom_unresolved_groups as nat,
        GroupCount::ConflictGroups => f.lightroom_conflict_groups as nat,
        GroupCount::MissingSidecars => f.lightroom_missing_sidecars as nat,
        GroupCount::CurrentGroups => f.lightroom_current_groups as nat,
    }
}

/// Photos waiting for a score on which the photographer has not decided.
pub open spec fn undecided_count(s: Seq<bool>) -> nat
    decreases s.len(),
{
    if s.len() == 0 { 0 } else { undecided_count(s.drop_last()) + if s.last() { 0nat } else { 1nat } }
}

/// Recommendations other than Keep on which the photographer has not decided.
pub open spec fn attention_count(s: Seq<(bool, CullingDecision)>) -> nat
    decreases s.len(),
{
    if s.len() == 0 {
        0
    } else {
        attention_count(s.drop_last()) + if !s.last().0 && s.last().1 != CullingDecision::Keep { 1nat } else { 0nat }
    }
}

proof fn lemma_attention_filter(s: Seq<(bool, CullingDecision)>, pred: spec_fn((bool, CullingDecision)) -> bool)
    requires
        forall|r: (bool, CullingDecision)| #[trigger] pred(r) == (!r.0 && r.1 != CullingDecision::Keep),
    ensures
        attention_count(s) == s.filter(pred).len(),
    decreases s.len(),
{
    reveal_with_fuel(Seq::filter, 1);
    if s.len() > 0 {
        lemma_attention_filter(s.drop_last(), pred);
        assert(pred(s.last()) == (!s.last().0 && s.last().1 != CullingDecision::Keep));
    }
}

proof fn lemma_undecided_filter(s: Seq<bool>, pred: spec_fn(bool) -> bool)
    requires
        forall|d: bool| #[trigger] pred(d) == !d,
    ensures
        undecided_count(s) == s.filter(pred).len(),
    decreases s.len(),
{
    reveal_with_fuel(Seq::filter, 1);
    if s.len() > 0 {
        lemma_undecided_filter(s.drop_last(), pred);
        assert(pred(s.last()) == !s.last());
    }
}

/// What a group adds to culling: every photo still waiting for its score
/// that the photographer has not decided on counts as pending, and every
/// recommendation the photographer has not decided on whose suggestion is
/// not Keep (a Review or a RejectSuggestion) counts once for attention;
/// nothing else counts.
pub proof fn culling_counts_undecided_photos(o: GroupWorkflowObservation)
    ensures
        group_adds(o, GroupCount::CullAttention)
            == o.recommendations@.filter(|r: (bool, CullingDecision)| !r.0 && r.1 != CullingDecision::Keep).len(),
        group_adds(o, GroupCount::CullPending) == o.pending_reviewed@.filter(|d: bool| !d).len(),
{
    lemma_attention_filter(o.recommendations@, |r: (bool, CullingDecision)| !r.0 && r.1 != CullingDecision::Keep);
    lemma_undecided_filter(o.pending_reviewed@, |d: bool| !d);
}

pub open spec fn flag(b: bool) -> nat {
    if b { 1 } else { 0 }
}

/// The group reaches the review of its edits: it has an editable photo and a
/// reference that is not rejected.
pub open spec fn reaches_review(o: GroupWorkflowObservation) -> bool {
    !o.editable_empty && o.has_reference && !o.reference_rejected
}

/// What one group adds to count `c`. Its undecided photos count for culling;
/// an unmerged bracket asks for an HDR merge. A group without an editable
/// photo is current once its brackets are merged, and asks for a reference
/// when it has no brackets; a group without a reference, or with a rejected
/// one, asks for a reference. Otherwise the review of its edits counts, and
/// its delivery: unresolved, conflicting, missing sidecars, or current when
/// nothing conflicts, nothing is missing and any brackets are merged.
pub open spec fn group_adds(o: GroupWorkflowObservation, c: GroupCount) -> nat {
    let merged_or_none = !o.has_exposure_brackets || o.hdr_merge_completed;
    let needs_reference = if o.editable_empty { !o.has_exposure_brackets } else { !o.has_reference || o.reference_rejected };
    match c {
        GroupCount::CullPending => undecided_count(o.pending_reviewed@),
        GroupCount::CullAttention => attention_count(o.recommendations@),
        GroupCount::HdrMergeGroups => flag(o.has_exposure_brackets && !o.hdr_merge_completed),
        GroupCount::ReferenceAttentionGroups => flag(needs_reference),
        GroupCount::ReviewAttention => if reaches_review(o) { o.review_attention as nat } else { 0 },
        GroupCount::ReviewPendingGroups => flag(reaches_review(o) && o.review_pending),
        GroupCount::UnresolvedGroups => flag(needs_reference || (reaches_review(o) && o.delivery is Unresolved)),
        GroupCount::ConflictGroups => flag(reaches_review(o) && (o.delivery matches GroupDelivery::Sidecars { conflicts, .. } && conflicts > 0)),
        GroupCount::MissingSidecars => match o.delivery {
            GroupDelivery::Sidecars { missing, .. } if reaches_review(o) => missing as nat,
            _ => 0,
        },
        GroupCount::CurrentGroups => flag(
            if o.editable_empty {
                o.has_exposure_brackets && o.hdr_merge_completed
            } else {
                reaches_review(o) && merged_or_none
                    && o.delivery == (GroupDelivery::Sidecars { conflicts: 0, missing: 0 })
            },
        ),
    }
}

/// What the first `n` groups add to count `c`.
pub open spec fn groups_add(groups: Seq<GroupWorkflowObservation>, c: GroupCount, n: int) -> nat
    decreases n,
{
    if n <= 0 { 0 } else { groups_add(groups, c, n - 1) + group_adds(groups[n - 1], c) }
}

proof fn lemma_groups_add_grows(groups: Seq<GroupWorkflowObservation>, c: GroupCount, m: int, n: int)
    requires
        0 <= m <= n,
    ensures
        groups_add(groups, c, m) <= groups_add(groups, c, n),
    decreases n - m,
{
    if m < n {
        lemma_groups_add_grows(groups, c, m, n - 1);
    }
}

pub open spec fn preparing(status: JobStatus) -> bool {
    status == JobStatus::Pending || status == JobStatus::Running || status == JobStatus::Paused
        || status == JobStatus::Cancelled
}

/// Jobs of the first `n` items of a batch that are still to prepare (and
/// those that failed, for `failed`).
pub open spec fn jobs_count(b: Batch, failed: bool, n: int) -> nat
    decreases n,
{
    if n <= 0 {
        0
    } else {
        let st = b.items@[n - 1].status;
        jobs_count(b, failed, n - 1) + flag(if failed { st == JobStatus::Failed } else { preparing(st) })
    }
}

proof fn lemma_jobs_count_bounded(b: Batch, failed: bool, n: int)
    requires
        0 <= n,
    ensures
        jobs_count(b, failed, n) <= n,
    decreases n,
{
    if n > 0 {
        lemma_jobs_count_bounded(b, failed, n - 1);
    }
}

/// The counts of a batch fit the machine's word.
pub open spec fn workflow_counts_fit(groups: Seq<GroupWorkflowObservation>) -> bool {
    forall|c: GroupCount| #[trigger] groups_add(groups, c, groups.len() as int) <= usize::MAX
}

fn undecided_in(s: &Vec<bool>) -> (res: usize)
    ensures
        res == undecided_count(s@),
{
    let mut n: usize = 0;
    let mut i: usize = 0;
    while i < s.len()
        invariant
            i <= s@.len(),
            n == undecided_count(s@.subrange(0, i as int)),
            n <= i,
        decreases s@.len() - i,
    {
        assert(s@.subrange(0, i + 1).drop_last() =~= s@.subrange(0, i as int));
        if !s[i] {
            n += 1;
        }
        i += 1;
    }
    assert(s@.subrange(0, i as int) =~= s@);
    n
}

fn attention_in(s: &Vec<(bool, CullingDecision)>) -> (res: usize)
    ensures
        res == attention_count(s@),
{
    let mut n: usize = 0;
    let mut i: usize = 0;
    while i < s.len()
        invariant
            i <= s@.len(),
            n == attention_count(s@.subrange(0, i as int)),
            n <= i,
        decreases s@.len() - i,
    {
        assert(s@.subrange(0, i + 1).drop_last() =~= s@.subrange(0, i as int));
        let (reviewed, decision) = s[i];
        if !reviewed && decision != CullingDecision::Keep {
            n += 1;
        }
        i += 1;
    }
    assert(s@.subrange(0, i as int) =~= s@);
    n
}

/// Adds one group to the counts.
fn add_group(facts: &mut WorkflowFacts, o: &GroupWorkflowObservation)
    requires
        forall|c: GroupCount| count_of(*old(facts), c) + #[trigger] group_adds(*o, c) <= usize::MAX,
    ensures
        forall|c: GroupCount| #[trigger] count_of(*final(facts), c) == count_of(*old(facts), c) + group_adds(*o, c),
        final(facts).preparation_active == old(facts).preparation_active,
        final(facts).preparation_failed == old(facts).preparation_failed,
        final(facts).groups_total == old(facts).groups_total,
{
    assert(count_of(*facts, GroupCount::CullPending) + group_adds(*o, GroupCount::CullPending) <= usize::MAX);
    assert(count_of(*facts, GroupCount::CullAttention) + group_adds(*o, GroupCount::CullAttention) <= usize::MAX);
    assert(count_of(*facts, GroupCount::ReviewAttention) + group_adds(*o, GroupCount::ReviewAttention) <= usize::MAX);
    assert(count_of(*facts, GroupCount::ReviewPendingGroups) + group_adds(*o, GroupCount::ReviewPendingGroups) <= usize::MAX);
    assert(count_of(*facts, GroupCount::ReferenceAttentionGroups) + group_adds(*o, GroupCount::ReferenceAttentionGroups) <= usize::MAX);
    assert(count_of(*facts, GroupCount::HdrMergeGroups) + group_adds(*o, GroupCount::HdrMergeGroups) <= usize::MAX);
    assert(count_of(*facts, GroupCount::UnresolvedGroups) + group_adds(*o, GroupCount::UnresolvedGroups) <= usize::MAX);
    assert(count_of(*facts, GroupCount::ConflictGroups) + group_adds(*o, GroupCount::ConflictGroups) <= usize::MAX);
    assert(count_of(*facts, GroupCount::MissingSidecars) + group_adds(*o, GroupCount::MissingSidecars) <= usize::MAX);
    assert(count_of(*facts, GroupCount::CurrentGroups) + group_adds(*o, GroupCount::CurrentGroups) <= usize::MAX);
    facts.cull_pending = facts.cull_pending + undecided_in(&o.pending_reviewed);
    facts.cull_attention = facts.cull_attention + attention_in(&o.recommendations);
    if o.has_exposure_brackets && !o.hdr_merge_completed {
        facts.lightroom_hdr_merge_groups = facts.lightroom_hdr_merge_groups + 1;
    }
    if o.editable_empty {
        if !o.has_exposure_brackets {
            facts.reference_attention_groups = facts.reference_attention_groups + 1;
            facts.lightroom_unresolved_groups = facts.lightroom_unresolved_groups + 1;
        } else if o.hdr_merge_completed {
            facts.lightroom_current_groups = facts.lightroom_current_groups + 1;
        }
        return;
    }
    if !o.has_reference || o.reference_rejected {
        facts.reference_attention_groups = facts.reference_attention_groups + 1;
        facts.lightroom_unresolved_groups = facts.lightroom_unresolved_groups + 1;
        return;
    }
    facts.review_attention = facts.review_attention + o.review_attention;
    if o.review_pending {
        facts.review_pending_groups = facts.review_pending_groups + 1;
    }
    match o.delivery {
        GroupDelivery::Unresolved => {
            facts.lightroom_unresolved_groups = facts.lightroom_unresolved_groups + 1;
        },
        GroupDelivery::Sidecars { conflicts, missing } => {
            if conflicts > 0 {
                facts.lightroom_conflict_groups = facts.lightroom_conflict_groups + 1;
            }
            facts.lightroom_missing_sidecars = facts.lightroom_missing_sidecars + missing;
            if conflicts == 0 && missing == 0 && (!o.has_exposure_brackets || o.hdr_merge_completed) {
                facts.lightroom_current_groups = facts.lightroom_current_groups + 1;
            }
        },
    }
}

/// Counts where a batch stands: its jobs still preparing and failed, its
/// groups, and what each group adds (see `group_adds`).
pub fn batch_workflow_facts(batch: &Batch, groups: &Vec<GroupWorkflowObservation>) -> (res: WorkflowFacts)
    requires
        workflow_counts_fit(groups@),
    ensures
        res.preparation_active == jobs_count(*batch, false, batch.items@.len() as int),
        res.preparation_failed == jobs_count(*batch, true, batch.items@.len() as int),
        res.groups_total == groups@.len(),
        forall|c: GroupCount| #[trigger] count_of(res, c) == groups_add(groups@, c, groups@.len() as int),
        res.cull_pending == groups_add(groups@, GroupCount::CullPending, groups@.len() as int),
        res.cull_attention == groups_add(groups@, GroupCount::CullAttention, groups@.len() as int),
        res.review_attention == groups_add(groups@, GroupCount::ReviewAttention, groups@.len() as int),
        res.review_pending_groups == groups_add(groups@, GroupCount::ReviewPendingGroups, groups@.len() as int),
        res.reference_attention_groups == groups_add(groups@, GroupCount::ReferenceAttentionGroups, groups@.len() as int),
        res.lightroom_hdr_merge_groups == groups_add(groups@, GroupCount::HdrMergeGroups, groups@.len() as int),
        res.lightroom_unresolved_groups == groups_add(groups@, GroupCount::UnresolvedGroups, groups@.len() as int),
        res.lightroom_conflict_groups == groups_add(groups@, GroupCount::ConflictGroups, groups@.len() as int),
        res.lightroom_missing_sidecars == groups_add(groups@, GroupCount::MissingSidecars, groups@.len() as int),
        res.lightroom_current_groups == groups_add(groups@, GroupCount::CurrentGroups, groups@.len() as int),
{
    let mut active: usize = 0;
    let mut failed: usize = 0;
    let mut i: usize = 0;
    while i < batch.items.len()
        invariant
            i <= batch.items@.len(),
            active == jobs_count(*batch, false, i as int),
            failed == jobs_count(*batch, true, i as int),
        decreases batch.items@.len() - i,
    {
        proof {
            lemma_jobs_count_bounded(*batch, false, i as int);
            lemma_jobs_count_bounded(*batch, true, i as int);
        }
        let st = batch.items[i].status;
        if st == JobStatus::Failed {
            failed = failed + 1;
        } else if st == JobStatus::Pending || st == JobStatus::Running || st == JobStatus::Paused || st == JobStatus::Cancelled {
            active = active + 1;
        }
        i += 1;
    }
    let mut facts = WorkflowFacts {
        preparation_active: active,
        preparation_failed: failed,
        groups_total: groups.len(),
        cull_pending: 0,
        cull_attention: 0,
        review_attention: 0,
        review_pending_groups: 0,
        reference_attention_groups: 0,
        lightroom_hdr_merge_groups: 0,
        lightroom_unresolved_groups: 0,
        lightroom_conflict_groups: 0,
        lightroom_missing_sidecars: 0,
        lightroom_current_groups: 0,
    };
    let mut g: usize = 0;
    while g < groups.len()
        invariant
            g <= groups@.len(),
            workflow_counts_fit(groups@),
            facts.preparation_active == jobs_count(*batch, false, batch.items@.len() as int),
            facts.preparation_failed == jobs_count(*batch, true, batch.items@.len() as int),
            facts.groups_total == groups@.len(),
            forall|c: GroupCount| #[trigger] count_of(facts, c) == groups_add(groups@, c, g as int),
        decreases groups@.len() - g,
    {
        proof {
            assert forall|c: GroupCount| count_of(facts, c) + #[trigger] group_adds(groups@[g as int], c) <= usize::MAX by {
                lemma_groups_add_grows(groups@, c, g + 1, groups@.len() as int);
                assert(groups_add(groups@, c, g + 1) == groups_add(groups@, c, g as int) + group_adds(groups@[g as int], c));
                assert(groups_add(groups@, c, groups@.len() as int) <= usize::MAX);
            }
        }
        add_group(&mut facts, &groups[g]);
        proof {
            assert forall|c: GroupCount| #[trigger] count_of(facts, c) == groups_add(groups@, c, g + 1) by {
                assert(groups_add(groups@, c, g + 1) == groups_add(groups@, c, g as int) + group_adds(groups@[g as int], c));
            }
        }
        g += 1;
    }
    assert(count_of(facts, GroupCount::CullPending) == groups_add(groups@, GroupCount::CullPending, groups@.len() as int));
    assert(count_of(facts, GroupCount::CullAttention) == groups_add(groups@, GroupCount::CullAttention, groups@.len() as int));
    assert(count_of(facts, GroupCount::ReviewAttention) == groups_add(groups@, GroupCount::ReviewAttention, groups@.len() as int));
    assert(count_of(facts, GroupCount::ReviewPendingGroups) == groups_add(groups@, GroupCount::ReviewPendingGroups, groups@.len() as int));
    assert(count_of(facts, GroupCount::ReferenceAttentionGroups) == groups_add(groups@, GroupCount::ReferenceAttentionGroups, groups@.len() as int));
    assert(count_of(facts, GroupCount::HdrMergeGroups) == groups_add(groups@, GroupCount::HdrMergeGroups, groups@.len() as int));
    assert(count_of(facts, GroupCount::UnresolvedGroups) == groups_add(groups@, GroupCount::UnresolvedGroups, groups@.len() as int));
    assert(count_of(facts, GroupCount::ConflictGroups) == groups_add(groups@, GroupCount::ConflictGroups, groups@.len() as int));
    assert(count_of(facts, GroupCount::MissingSidecars) == groups_add(groups@, GroupCount::MissingSidecars, groups@.len() as int));
    assert(count_of(facts, GroupCount::CurrentGroups) == groups_add(groups@, GroupCount::CurrentGroups, groups@.len() as int));
    facts
}

} // verus!
