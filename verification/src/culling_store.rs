//! The photographer's culling decisions and moment quick-cull operations. A
//! quick cull can be undone only while every decision it wrote is still the
//! one it wrote: a later change by the photographer is never erased.

use vstd::prelude::*;
use crate::path::chars_equal;
use crate::text::chars_of;

verus! {

#[derive(PartialEq, Eq, Structural, Clone, Copy, Debug)]
pub enum CullingUserDecision {
    Keep,
    Review,
    Reject,
}

#[derive(PartialEq, Eq, Structural, Clone, Copy, Debug)]
pub struct CullingReview {
    pub asset_id: u128,
    pub decision: CullingUserDecision,
}

pub struct MomentQuickCullOperation {
    pub operation_id: u128,
    pub batch_id: u128,
    pub group_ids: Vec<u128>,
    pub reviews: Vec<CullingReview>,
    pub created_at_unix_ms: i64,
}

pub enum CullingReviewStoreError {
    Sqlite(String),
    Io(String),
    Uuid(String),
    Json(String),
    InvalidDecision(String),
    OperationNotFound(u128),
    OperationStale(u128),
}

/// The culling decisions kept in the database at `path`.
pub struct CullingReviewStore {
    path: String,
}

impl CullingReviewStore {
    pub closed spec fn location(&self) -> Seq<char> {
        self.path@
    }

    /// The store kept at `path`; opening the database is the caller's part.
    pub fn at(path: String) -> (res: Self)
        ensures
            res.location() == path@,
    {
        CullingReviewStore { path }
    }

    pub fn path(&self) -> (res: &str)
        ensures
            res@ == self.location(),
    {
        self.path.as_str()
    }
}

impl Clone for CullingReviewStore {
    fn clone(&self) -> (res: Self)
        ensures
            res.location() == self.location(),
    {
        CullingReviewStore { path: self.path.clone() }
    }
}

pub open spec fn decision_text(d: CullingUserDecision) -> Seq<char> {
    match d {
        CullingUserDecision::Keep => "KEEP"@,
        CullingUserDecision::Review => "REVIEW"@,
        CullingUserDecision::Reject => "REJECT"@,
    }
}

pub open spec fn decision_named(t: Seq<char>) -> Option<CullingUserDecision> {
    if t == decision_text(CullingUserDecision::Keep) {
        Some(CullingUserDecision::Keep)
    } else if t == decision_text(CullingUserDecision::Review) {
        Some(CullingUserDecision::Review)
    } else if t == decision_text(CullingUserDecision::Reject) {
        Some(CullingUserDecision::Reject)
    } else {
        None
    }
}

/// A stored decision reads back as the decision that was written.
pub proof fn decision_round_trip(d: CullingUserDecision)
    ensures
        decision_named(decision_text(d)) == Some(d),
{
    reveal_strlit("KEEP");
    reveal_strlit("REVIEW");
    reveal_strlit("REJECT");
    let t = decision_text(d);
    match d {
        CullingUserDecision::Keep => {},
        CullingUserDecision::Review => {
            assert(t.len() != decision_text(CullingUserDecision::Keep).len());
        },
        CullingUserDecision::Reject => {
            assert(t.len() != decision_text(CullingUserDecision::Keep).len());
            assert(t[2] != decision_text(CullingUserDecision::Review)[2]);
        },
    }
}

pub fn decision_to_db(value: CullingUserDecision) -> (res: &'static str)
    ensures
        res@ == decision_text(value),
{
    match value {
        CullingUserDecision::Keep => "KEEP",
        CullingUserDecision::Review => "REVIEW",
        CullingUserDecision::Reject => "REJECT",
    }
}

fn is_decision(t: &Vec<char>, d: CullingUserDecision) -> (res: bool)
    ensures
        res == (t@ == decision_text(d)),
{
    chars_equal(t, &chars_of(decision_to_db(d)))
}

pub fn decision_from_db(value: &str) -> (res: Result<CullingUserDecision, CullingReviewStoreError>)
    ensures
        match decision_named(value@) {
            Some(d) => res == Ok::<CullingUserDecision, CullingReviewStoreError>(d),
            None => res matches Err(CullingReviewStoreError::InvalidDecision(t)) && t@ == value@,
        },
{
    let t = chars_of(value);
    if is_decision(&t, CullingUserDecision::Keep) {
        Ok(CullingUserDecision::Keep)
    } else if is_decision(&t, CullingUserDecision::Review) {
        Ok(CullingUserDecision::Review)
    } else if is_decision(&t, CullingUserDecision::Reject) {
        Ok(CullingUserDecision::Reject)
    } else {
        Err(CullingReviewStoreError::InvalidDecision(value.to_owned()))
    }
}

/// The stored state of a reviewed asset still is what the operation wrote:
/// the same decision, written at the operation's time.
pub open spec fn still_as_written(review: CullingReview, created_at: i64, current: Option<(Seq<char>, i64)>) -> bool {
    current matches Some((text, at)) && decision_named(text) == Some(review.decision) && at == created_at
}

/// The first review at which the undo stops: the stored state is gone or
/// changed, or its decision text is unreadable.
pub open spec fn undo_blocked_at(reviews: Seq<CullingReview>, created_at: i64, current: Seq<Option<(Seq<char>, i64)>>, i: int) -> bool {
    &&& 0 <= i < reviews.len()
    &&& !still_as_written(reviews[i], created_at, current[i])
    &&& forall|j: int| 0 <= j < i ==> #[trigger] still_as_written(reviews[j], created_at, current[j])
}

/// A quick cull whose decisions nobody has touched since it wrote them can
/// be undone: each stored decision reads back as the one written, at the
/// operation's time.
pub proof fn untouched_quick_cull_can_be_undone(reviews: Seq<CullingReview>, created_at: i64, current: Seq<Option<(Seq<char>, i64)>>)
    requires
        current.len() == reviews.len(),
        forall|i: int| 0 <= i < reviews.len() ==> #[trigger] current[i] == Some((decision_text(reviews[i].decision), created_at)),
    ensures
        forall|i: int| 0 <= i < reviews.len() ==> #[trigger] still_as_written(reviews[i], created_at, current[i]),
{
    assert forall|i: int| 0 <= i < reviews.len() implies #[trigger] still_as_written(reviews[i], created_at, current[i]) by {
        decision_round_trip(reviews[i].decision);
        assert(current[i] == Some((decision_text(reviews[i].decision), created_at)));
    }
}

pub open spec fn current_views(current: Seq<Option<(String, i64)>>) -> Seq<Option<(Seq<char>, i64)>> {
    current.map_values(|c: Option<(String, i64)>| match c {
        Some((t, at)) => Some((t@, at)),
        None => None,
    })
}

/// Whether an operation may be undone, given the stored state of each of its
/// reviewed assets in order: it may exactly when every one is still as the
/// operation wrote it. A stored decision that cannot be read is reported as
/// such; any other difference makes the operation stale.
pub fn check_undo(operation: &MomentQuickCullOperation, current: &Vec<Option<(String, i64)>>) -> (res: Result<(), CullingReviewStoreError>)
    requires
        current@.len() == operation.reviews@.len(),
    ensures
        res is Ok <==> forall|i: int| 0 <= i < operation.reviews@.len()
            ==> #[trigger] still_as_written(operation.reviews@[i], operation.created_at_unix_ms, current_views(current@)[i]),
        res matches Err(e) ==> exists|i: int| undo_blocked_at(operation.reviews@, operation.created_at_unix_ms, current_views(current@), i)
            && (match current_views(current@)[i] {
                Some((text, _)) => match decision_named(text) {
                    None => e matches CullingReviewStoreError::InvalidDecision(t) && t@ == text,
                    Some(_) => e == CullingReviewStoreError::OperationStale(operation.operation_id),
                },
                None => e == CullingReviewStoreError::OperationStale(operation.operation_id),
            }),
{
    let ghost cv = current_views(current@);
    let mut i: usize = 0;
    while i < operation.reviews.len()
        invariant
            i <= operation.reviews@.len(),
            current@.len() == operation.reviews@.len(),
            cv == current_views(current@),
            forall|j: int| 0 <= j < i ==> #[trigger] still_as_written(operation.reviews@[j], operation.created_at_unix_ms, cv[j]),
        decreases operation.reviews@.len() - i,
    {
        let review = operation.reviews[i];
        assert(cv[i as int] == match current@[i as int] {
            Some((t, at)) => Some((t@, at)),
            None => None::<(Seq<char>, i64)>,
        });
        match &current[i] {
            None => {
                assert(undo_blocked_at(operation.reviews@, operation.created_at_unix_ms, cv, i as int));
                return Err(CullingReviewStoreError::OperationStale(operation.operation_id));
            },
            Some((text, at)) => {
                let decision = match decision_from_db(text.as_str()) {
                    Err(e) => {
                        assert(undo_blocked_at(operation.reviews@, operation.created_at_unix_ms, cv, i as int));
                        return Err(e);
                    },
                    Ok(d) => d,
                };
                if decision != review.decision || *at != operation.created_at_unix_ms {
                    assert(undo_blocked_at(operation.reviews@, operation.created_at_unix_ms, cv, i as int));
                    return Err(CullingReviewStoreError::OperationStale(operation.operation_id));
                }
            },
        }
        i += 1;
    }
    Ok(())
}

/// The photographer's decision for `a` among `reviews`: the last one given.
pub open spec fn latest_decision(reviews: Seq<CullingReview>, a: u128) -> Option<CullingUserDecision>
    decreases reviews.len(),
{
    if reviews.len() == 0 {
        None
    } else if reviews.last().asset_id == a {
        Some(reviews.last().decision)
    } else {
        latest_decision(reviews.drop_last(), a)
    }
}

pub fn latest_decision_in(reviews: &Vec<CullingReview>, a: u128) -> (res: Option<CullingUserDecision>)
    ensures
        res == latest_decision(reviews@, a),
{
    let mut i: usize = reviews.len();
    assert(reviews@.subrange(0, i as int) =~= reviews@);
    while i > 0
        invariant
            i <= reviews@.len(),
            latest_decision(reviews@, a) == latest_decision(reviews@.subrange(0, i as int), a),
        decreases i,
    {
        let ghost pre = reviews@.subrange(0, i as int);
        assert(pre.drop_last() =~= reviews@.subrange(0, i - 1));
        if reviews[i - 1].asset_id == a {
            return Some(reviews[i - 1].decision);
        }
        i -= 1;
    }
    assert(reviews@.subrange(0, 0) =~= Seq::<CullingReview>::empty());
    None
}

// ----- confirming a moment quick cull -----

/// The decisions a moment quick cull proposes for one group.
pub struct QuickCullSelection {
    pub group_id: u128,
    pub keep_asset_ids: Vec<u128>,
    pub review_asset_ids: Vec<u128>,
    pub reject_asset_ids: Vec<u128>,
}

pub enum QuickCullError {
    /// No group was selected.
    NoGroupsSelected,
    /// The group was selected twice.
    DuplicateGroup(u128),
    /// The group is not a group of the batch.
    GroupOutsideBatch(u128),
    /// The group already has a reference; a quick cull comes before it.
    GroupHasReference(u128),
    /// The photographer already decided on photos of the group; a quick cull
    /// never overwrites such decisions.
    GroupHasReviews(u128),
    /// The group has no quick-cull plan.
    NotEligible(u128),
    /// The asset appears in more than one selected group.
    AssetInSeveralGroups(u128),
}

/// What is known of one selected group when a moment quick cull is
/// confirmed: whether it belongs to the batch, whether it has a reference or
/// photographer decisions, and its quick-cull plan, if it has one.
pub struct QuickCullGroup {
    pub group_id: u128,
    pub in_batch: bool,
    pub has_reference: bool,
    pub has_reviews: bool,
    pub plan: Option<QuickCullSelection>,
}

pub open spec fn reviews_as(ids: Seq<u128>, d: CullingUserDecision) -> Seq<CullingReview> {
    ids.map_values(|a: u128| CullingReview { asset_id: a, decision: d })
}

/// The reviews one selection writes: keeps, then reviews, then rejects.
pub open spec fn selection_reviews(s: QuickCullSelection) -> Seq<CullingReview> {
    reviews_as(s.keep_asset_ids@, CullingUserDecision::Keep)
        + reviews_as(s.review_asset_ids@, CullingUserDecision::Review)
        + reviews_as(s.reject_asset_ids@, CullingUserDecision::Reject)
}

pub open spec fn all_reviews(sel: Seq<QuickCullSelection>) -> Seq<CullingReview>
    decreases sel.len(),
{
    if sel.len() == 0 {
        seq![]
    } else {
        all_reviews(sel.drop_last()) + selection_reviews(sel.last())
    }
}

pub open spec fn reviewed_ids(r: Seq<CullingReview>) -> Seq<u128> {
    r.map_values(|c: CullingReview| c.asset_id)
}

pub open spec fn selected_groups(sel: Seq<QuickCullSelection>) -> Seq<u128> {
    sel.map_values(|s: QuickCullSelection| s.group_id)
}

pub open spec fn no_repeats(ids: Seq<u128>) -> bool {
    forall|i: int, j: int| 0 <= i < j < ids.len() ==> ids[i] != ids[j]
}

pub open spec fn repeats(ids: Seq<u128>, x: u128) -> bool {
    exists|i: int, j: int| 0 <= i < j < ids.len() && ids[i] == x && ids[j] == x
}

fn push_reviews(out: &mut Vec<CullingReview>, seen: &mut Vec<u128>, ids: &Vec<u128>, d: CullingUserDecision) -> (res: Option<u128>)
    requires
        reviewed_ids(old(out)@) == old(seen)@,
        no_repeats(old(seen)@),
    ensures
        reviewed_ids(final(out)@) == final(seen)@,
        match res {
            None => final(out)@ == old(out)@ + reviews_as(ids@, d) && no_repeats(final(seen)@),
            Some(a) => repeats(old(seen)@ + ids@, a),
        },
{
    let ghost start_out = out@;
    let ghost start_seen = seen@;
    let mut i: usize = 0;
    while i < ids.len()
        invariant
            i <= ids@.len(),
            start_seen == old(seen)@,
            start_out == old(out)@,
            reviewed_ids(out@) == seen@,
            seen@ == start_seen + ids@.subrange(0, i as int),
            out@ == start_out + reviews_as(ids@.subrange(0, i as int), d),
            no_repeats(seen@),
        decreases ids@.len() - i,
    {
        let a = ids[i];
        if crate::ids::id_listed(seen.as_slice(), a) {
            proof {
                let k = choose|k: int| 0 <= k < seen@.len() && seen@[k] == a;
                let all = start_seen + ids@;
                assert(all[k] == a) by {
                    if k < start_seen.len() {
                        assert(seen@[k] == start_seen[k]);
                    } else {
                        assert(seen@[k] == ids@[k - start_seen.len()]);
                    }
                }
                assert(all[start_seen.len() + i] == a);
                assert(k < start_seen.len() + i);
                assert(repeats(all, a));
            }
            return Some(a);
        }
        out.push(CullingReview { asset_id: a, decision: d });
        seen.push(a);
        i += 1;
        proof {
            assert(seen@ =~= start_seen + ids@.subrange(0, i as int));
            assert(out@ =~= start_out + reviews_as(ids@.subrange(0, i as int), d));
            assert(reviewed_ids(out@) =~= seen@);
        }
    }
    assert(ids@.subrange(0, ids@.len() as int) =~= ids@);
    None
}

/// Why one group, seen on its own, cannot join a quick cull; checked in this
/// order.
pub open spec fn group_problem(g: QuickCullGroup) -> Option<QuickCullError> {
    if !g.in_batch {
        Some(QuickCullError::GroupOutsideBatch(g.group_id))
    } else if g.has_reference {
        Some(QuickCullError::GroupHasReference(g.group_id))
    } else if g.has_reviews {
        Some(QuickCullError::GroupHasReviews(g.group_id))
    } else if g.plan is None {
        Some(QuickCullError::NotEligible(g.group_id))
    } else {
        None
    }
}

pub open spec fn plans(gs: Seq<QuickCullGroup>) -> Seq<QuickCullSelection> {
    gs.map_values(|g: QuickCullGroup| g.plan->0)
}

pub open spec fn group_ids(gs: Seq<QuickCullGroup>) -> Seq<u128> {
    gs.map_values(|g: QuickCullGroup| g.group_id)
}

/// The first `n` selected groups can all be quick-culled together.
pub open spec fn prefix_passes(gs: Seq<QuickCullGroup>, n: int) -> bool {
    &&& forall|m: int| 0 <= m < n ==> group_problem(#[trigger] gs[m]) is None
    &&& no_repeats(group_ids(gs.subrange(0, n)))
    &&& no_repeats(reviewed_ids(all_reviews(plans(gs.subrange(0, n)))))
}

/// Group `n` is the first that fails, and fails with `e`: every group before
/// it passes; then a repeated group, then its own problem, then a photo
/// already in an earlier group (or twice in its own plan) is reported.
pub open spec fn first_failure(gs: Seq<QuickCullGroup>, n: int, e: QuickCullError) -> bool {
    let prefix = gs.subrange(0, n);
    &&& 0 <= n < gs.len()
    &&& prefix_passes(gs, n)
    &&& match e {
        QuickCullError::NoGroupsSelected => false,
        QuickCullError::DuplicateGroup(g) => gs[n].group_id == g && group_ids(prefix).contains(g),
        QuickCullError::AssetInSeveralGroups(a) => !group_ids(prefix).contains(gs[n].group_id)
            && group_problem(gs[n]) is None
            && repeats(reviewed_ids(all_reviews(plans(prefix))) + (gs[n].plan->0).keep_asset_ids@
                + (gs[n].plan->0).review_asset_ids@ + (gs[n].plan->0).reject_asset_ids@, a),
        _ => !group_ids(prefix).contains(gs[n].group_id) && group_problem(gs[n]) == Some(e),
    }
}

/// A repeat in a sequence is a repeat in any longer one that starts with it.
proof fn lemma_repeat_extends(x: Seq<u128>, y: Seq<u128>, a: u128)
    requires
        repeats(x, a),
        x.len() <= y.len(),
        y.subrange(0, x.len() as int) == x,
    ensures
        repeats(y, a),
{
    let (i, j) = choose|i: int, j: int| 0 <= i < j < x.len() && x[i] == a && x[j] == a;
    assert(y[i] == y.subrange(0, x.len() as int)[i]);
    assert(y[j] == y.subrange(0, x.len() as int)[j]);
}

/// The reviews that confirming a moment quick cull of the selected `groups`
/// writes, in order: each group's keeps, reviews and rejects. The selection
/// must name at least one group; each group may be selected once, must
/// belong to the batch, have no reference and no photographer decisions yet,
/// and have a quick-cull plan; and each photo may belong to one selected
/// group only. The first group that fails is reported (`first_failure`).
pub fn quick_cull_reviews(groups: &Vec<QuickCullGroup>) -> (res: Result<Vec<CullingReview>, QuickCullError>)
    ensures
        groups@.len() == 0 ==> res matches Err(QuickCullError::NoGroupsSelected),
        match res {
            Ok(r) => groups@.len() > 0 && prefix_passes(groups@, groups@.len() as int)
                && r@ == all_reviews(plans(groups@)),
            Err(QuickCullError::NoGroupsSelected) => groups@.len() == 0,
            Err(e) => exists|n: int| first_failure(groups@, n, e),
        },
{
    if groups.len() == 0 {
        return Err(QuickCullError::NoGroupsSelected);
    }
    let mut out: Vec<CullingReview> = Vec::new();
    let mut seen: Vec<u128> = Vec::new();
    let mut ids: Vec<u128> = Vec::new();
    let mut n: usize = 0;
    assert(groups@.subrange(0, 0) =~= Seq::<QuickCullGroup>::empty());
    assert(plans(groups@.subrange(0, 0)) =~= Seq::<QuickCullSelection>::empty());
    assert(group_ids(groups@.subrange(0, 0)) =~= Seq::<u128>::empty());
    while n < groups.len()
        invariant
            n <= groups@.len(),
            prefix_passes(groups@, n as int),
            out@ == all_reviews(plans(groups@.subrange(0, n as int))),
            reviewed_ids(out@) == seen@,
            no_repeats(seen@),
            ids@ == group_ids(groups@.subrange(0, n as int)),
        decreases groups@.len() - n,
    {
        let g = &groups[n];
        let ghost pre = groups@.subrange(0, n as int);
        let ghost next = groups@.subrange(0, n + 1);
        assert(next.drop_last() =~= pre);
        if crate::ids::id_listed(ids.as_slice(), g.group_id) {
            assert(first_failure(groups@, n as int, QuickCullError::DuplicateGroup(g.group_id)));
            return Err(QuickCullError::DuplicateGroup(g.group_id));
        }
        if !g.in_batch {
            assert(first_failure(groups@, n as int, QuickCullError::GroupOutsideBatch(g.group_id)));
            return Err(QuickCullError::GroupOutsideBatch(g.group_id));
        }
        if g.has_reference {
            assert(first_failure(groups@, n as int, QuickCullError::GroupHasReference(g.group_id)));
            return Err(QuickCullError::GroupHasReference(g.group_id));
        }
        if g.has_reviews {
            assert(first_failure(groups@, n as int, QuickCullError::GroupHasReviews(g.group_id)));
            return Err(QuickCullError::GroupHasReviews(g.group_id));
        }
        let sel = match &g.plan {
            None => {
                assert(first_failure(groups@, n as int, QuickCullError::NotEligible(g.group_id)));
                return Err(QuickCullError::NotEligible(g.group_id));
            },
            Some(p) => p,
        };
        let ghost seen0 = seen@;
        let ghost all_ids = seen0 + sel.keep_asset_ids@ + sel.review_asset_ids@ + sel.reject_asset_ids@;
        assert(seen0 == reviewed_ids(all_reviews(plans(pre))));
        let ghost out0 = out@;
        match push_reviews(&mut out, &mut seen, &sel.keep_asset_ids, CullingUserDecision::Keep) {
            Some(a) => {
                proof {
                    assert(all_ids.subrange(0, (seen0 + sel.keep_asset_ids@).len() as int) =~= seen0 + sel.keep_asset_ids@);
                    lemma_repeat_extends(seen0 + sel.keep_asset_ids@, all_ids, a);
                    assert(first_failure(groups@, n as int, QuickCullError::AssetInSeveralGroups(a)));
                }
                return Err(QuickCullError::AssetInSeveralGroups(a));
            },
            None => {},
        }
        let ghost seen1 = seen@;
        assert(seen1 =~= seen0 + sel.keep_asset_ids@) by {
            assert(reviewed_ids(out0 + reviews_as(sel.keep_asset_ids@, CullingUserDecision::Keep)) =~= seen0 + sel.keep_asset_ids@);
        }
        let ghost out1 = out@;
        match push_reviews(&mut out, &mut seen, &sel.review_asset_ids, CullingUserDecision::Review) {
            Some(a) => {
                proof {
                    assert(all_ids.subrange(0, (seen1 + sel.review_asset_ids@).len() as int) =~= seen1 + sel.review_asset_ids@);
                    lemma_repeat_extends(seen1 + sel.review_asset_ids@, all_ids, a);
                    assert(first_failure(groups@, n as int, QuickCullError::AssetInSeveralGroups(a)));
                }
                return Err(QuickCullError::AssetInSeveralGroups(a));
            },
            None => {},
        }
        let ghost seen2 = seen@;
        assert(seen2 =~= seen0 + sel.keep_asset_ids@ + sel.review_asset_ids@) by {
            assert(reviewed_ids(out1 + reviews_as(sel.review_asset_ids@, CullingUserDecision::Review)) =~= seen1 + sel.review_asset_ids@);
        }
        match push_reviews(&mut out, &mut seen, &sel.reject_asset_ids, CullingUserDecision::Reject) {
            Some(a) => {
                proof {
                    assert(all_ids.subrange(0, (seen2 + sel.reject_asset_ids@).len() as int) =~= seen2 + sel.reject_asset_ids@);
                    lemma_repeat_extends(seen2 + sel.reject_asset_ids@, all_ids, a);
                    assert(first_failure(groups@, n as int, QuickCullError::AssetInSeveralGroups(a)));
                }
                return Err(QuickCullError::AssetInSeveralGroups(a));
            },
            None => {},
        }
        proof {
            assert(plans(next) =~= plans(pre).push(*sel));
            assert(plans(next).drop_last() =~= plans(pre));
            assert(all_reviews(plans(next)) == all_reviews(plans(pre)) + selection_reviews(*sel));
            assert(out@ =~= all_reviews(plans(pre)) + selection_reviews(*sel));
            assert(out@ =~= all_reviews(plans(next)));
            assert(group_ids(next) =~= ids@.push(g.group_id));
            let g2 = ids@.push(g.group_id);
            assert forall|i: int, j: int| 0 <= i < j < g2.len() implies g2[i] != g2[j] by {
                if j == ids@.len() {
                    assert(g2[i] == ids@[i]);
                    if ids@[i] == g.group_id {
                        assert(ids@.contains(g.group_id));
                    }
                }
            }
            assert forall|m: int| 0 <= m < n + 1 implies group_problem(#[trigger] groups@[m]) is None by {
                if m < n {
                    assert(group_problem(groups@[m]) is None);
                }
            }
        }
        ids.push(g.group_id);
        n += 1;
    }
    assert(groups@.subrange(0, groups@.len() as int) =~= groups@);
    Ok(out)
}

} // verus!
