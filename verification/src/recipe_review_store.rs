//! Recipe review: the photographer's per-photo overrides and confirmations of
//! generated recipes. Overrides and confirmations are written in batches that
//! name each photo at most once; a confirmation holds the fingerprint of the
//! recipe it confirmed, so any later change to the recipe unconfirms it.

use vstd::prelude::*;
use crate::path::chars_equal;
use crate::text::chars_of;

verus! {

/// Which tone fields a review override copies from one photo to another.
#[derive(PartialEq, Eq, Structural, Clone, Copy, Debug)]
pub struct RecipeReviewSyncFields {
    pub exposure: bool,
    pub highlights: bool,
    pub shadows: bool,
    pub whites: bool,
    pub blacks: bool,
    pub contrast: bool,
    pub saturation: bool,
}

impl RecipeReviewSyncFields {
    /// Whether any field is selected.
    pub fn any(self) -> (res: bool)
        ensures
            res == (self.exposure || self.highlights || self.shadows || self.whites || self.blacks
                || self.contrast || self.saturation),
    {
        self.exposure || self.highlights || self.shadows || self.whites || self.blacks || self.contrast
            || self.saturation
    }
}

pub struct RecipeReviewConfirmation {
    pub asset_id: u128,
    pub recipe_fingerprint: String,
}

pub enum RecipeReviewStoreError {
    Sqlite(String),
    Io(String),
    Json(String),
    Uuid(String),
    RecipeMissingTarget(u128),
    DuplicateOverride(u128),
    DuplicateConfirmation(u128),
    TargetMismatch { recipe_id: u128, recipe_asset_id: u128, override_asset_id: u128 },
}

/// The recipe review records kept in the database at `path`.
pub struct RecipeReviewStore {
    path: String,
}

impl RecipeReviewStore {
    pub closed spec fn location(&self) -> Seq<char> {
        self.path@
    }

    /// The store kept at `path`; opening the database is the caller's part.
    pub fn at(path: String) -> (res: Self)
        ensures
            res.location() == path@,
    {
        RecipeReviewStore { path }
    }

    pub fn path(&self) -> (res: &str)
        ensures
            res@ == self.location(),
    {
        self.path.as_str()
    }
}

impl Clone for RecipeReviewStore {
    fn clone(&self) -> (res: Self)
        ensures
            res.location() == self.location(),
    {
        RecipeReviewStore { path: self.path.clone() }
    }
}

/// `ids[i]` already occurs before position `i`.
pub open spec fn repeats_earlier(ids: Seq<u128>, i: int) -> bool {
    exists|j: int| 0 <= j < i && ids[j] == #[trigger] ids[i]
}

/// No id occurs twice in `ids[..n]`.
pub open spec fn distinct_upto(ids: Seq<u128>, n: int) -> bool {
    forall|i: int| 0 <= i < n ==> !#[trigger] repeats_earlier(ids, i)
}

fn occurs_before(ids: &[u128], i: usize) -> (res: bool)
    requires
        i < ids@.len(),
    ensures
        res == repeats_earlier(ids@, i as int),
{
    let mut j: usize = 0;
    while j < i
        invariant
            i < ids@.len(),
            j <= i,
            forall|k: int| 0 <= k < j ==> ids@[k] != ids@[i as int],
        decreases i - j,
    {
        if ids[j] == ids[i] {
            return true;
        }
        j += 1;
    }
    false
}

/// A batch of overrides may name each photo once: the first photo named a
/// second time is reported.
pub fn check_unique_overrides(asset_ids: &[u128]) -> (res: Result<(), RecipeReviewStoreError>)
    ensures
        match res {
            Ok(()) => distinct_upto(asset_ids@, asset_ids@.len() as int),
            Err(e) => exists|i: int| 0 <= i < asset_ids@.len() && distinct_upto(asset_ids@, i)
                && repeats_earlier(asset_ids@, i) && e == RecipeReviewStoreError::DuplicateOverride(asset_ids@[i]),
        },
{
    let mut i: usize = 0;
    while i < asset_ids.len()
        invariant
            i <= asset_ids@.len(),
            distinct_upto(asset_ids@, i as int),
        decreases asset_ids@.len() - i,
    {
        if occurs_before(asset_ids, i) {
            return Err(RecipeReviewStoreError::DuplicateOverride(asset_ids[i]));
        }
        i += 1;
    }
    Ok(())
}

/// The photos a batch of confirmations is for, in order, given each recipe
/// as `(recipe id, target photo)`: a recipe without a target, or a photo
/// named a second time, stops the batch at the first such recipe.
pub open spec fn targets_ok_upto(recipes: Seq<(u128, Option<u128>)>, n: int) -> bool {
    &&& forall|i: int| 0 <= i < n ==> (#[trigger] recipes[i]).1 is Some
    &&& distinct_upto(recipes.map_values(|r: (u128, Option<u128>)| r.1->0), n)
}

pub open spec fn target_ids(recipes: Seq<(u128, Option<u128>)>) -> Seq<u128> {
    recipes.map_values(|r: (u128, Option<u128>)| r.1->0)
}

pub fn confirmation_targets(recipes: &[(u128, Option<u128>)]) -> (res: Result<Vec<u128>, RecipeReviewStoreError>)
    ensures
        match res {
            Ok(ids) => targets_ok_upto(recipes@, recipes@.len() as int) && ids@ == target_ids(recipes@),
            Err(e) => exists|i: int| 0 <= i < recipes@.len() && targets_ok_upto(recipes@, i) && (match recipes@[i].1 {
                None => e == RecipeReviewStoreError::RecipeMissingTarget(recipes@[i].0),
                Some(t) => repeats_earlier(target_ids(recipes@), i) && e == RecipeReviewStoreError::DuplicateConfirmation(t),
            }),
        },
{
    let mut ids: Vec<u128> = Vec::new();
    let mut i: usize = 0;
    while i < recipes.len()
        invariant
            i <= recipes@.len(),
            ids@ == target_ids(recipes@).subrange(0, i as int),
            targets_ok_upto(recipes@, i as int),
        decreases recipes@.len() - i,
    {
        let target = match recipes[i].1 {
            None => return Err(RecipeReviewStoreError::RecipeMissingTarget(recipes[i].0)),
            Some(t) => t,
        };
        ids.push(target);
        assert(ids@ =~= target_ids(recipes@).subrange(0, i + 1));
        let repeated = occurs_before(ids.as_slice(), i);
        proof {
            let all = target_ids(recipes@);
            let pre = all.subrange(0, i + 1);
            assert(repeats_earlier(pre, i as int) == repeats_earlier(all, i as int)) by {
                if repeats_earlier(pre, i as int) {
                    let j = choose|j: int| 0 <= j < i && pre[j] == #[trigger] pre[i as int];
                    assert(all[j] == all[i as int]);
                }
                if repeats_earlier(all, i as int) {
                    let j = choose|j: int| 0 <= j < i && all[j] == #[trigger] all[i as int];
                    assert(pre[j] == pre[i as int]);
                }
            }
        }
        if repeated {
            return Err(RecipeReviewStoreError::DuplicateConfirmation(target));
        }
        i += 1;
    }
    assert(target_ids(recipes@).subrange(0, recipes@.len() as int) =~= target_ids(recipes@));
    Ok(ids)
}

/// An override may change only the recipe of the photo it belongs to.
pub fn check_override_target(recipe_id: u128, recipe_target: Option<u128>, override_asset_id: u128) -> (res: Result<(), RecipeReviewStoreError>)
    ensures
        match recipe_target {
            None => res == Err::<(), RecipeReviewStoreError>(RecipeReviewStoreError::RecipeMissingTarget(recipe_id)),
            Some(t) => if t == override_asset_id {
                res is Ok
            } else {
                res == Err::<(), RecipeReviewStoreError>(RecipeReviewStoreError::TargetMismatch {
                    recipe_id,
                    recipe_asset_id: t,
                    override_asset_id,
                })
            },
        },
{
    match recipe_target {
        None => Err(RecipeReviewStoreError::RecipeMissingTarget(recipe_id)),
        Some(t) => {
            if t != override_asset_id {
                Err(RecipeReviewStoreError::TargetMismatch { recipe_id, recipe_asset_id: t, override_asset_id })
            } else {
                Ok(())
            }
        },
    }
}

/// A recipe counts as confirmed exactly when a confirmation is stored for its
/// photo with the recipe's current fingerprint.
pub fn is_confirmed(stored: Option<&str>, current: &str) -> (res: bool)
    ensures
        res == (stored matches Some(s) && s@ == current@),
{
    match stored {
        None => false,
        Some(s) => chars_equal(&chars_of(s), &chars_of(current)),
    }
}

} // verus!
