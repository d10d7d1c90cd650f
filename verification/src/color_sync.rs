//! Group color synchronisation: how a group's look is kept in step, and what
//! changing its reference invalidates. The color math itself runs outside the
//! library.

use vstd::prelude::*;

verus! {

#[derive(PartialEq, Eq, Structural, Clone, Copy, Debug)]
pub enum GroupSyncMode {
    AutoGroup,
    ReferenceDriven,
    ManualCopy,
}

#[derive(PartialEq, Eq, Structural, Clone, Copy, Debug)]
pub enum SemanticRegion {
    Person,
    FaceSkin,
    Background,
    Sky,
}

#[derive(PartialEq, Eq, Structural, Clone, Copy, Debug)]
pub enum GroupColorInvalidationScope {
    GroupColorOnly,
}

/// A change of a group's color plan: only the group's color is invalidated,
/// and the plan moves from one revision to the next.
#[derive(PartialEq, Eq, Structural, Clone, Copy, Debug)]
pub struct GroupColorInvalidation {
    pub group_id: u128,
    pub scope: GroupColorInvalidationScope,
    pub previous_revision: u64,
    pub next_revision: u64,
}

/// What promoting a new reference does to a group's color plan: only the
/// group's color is invalidated, and the plan moves to the next revision
/// (held at the largest revision).
pub fn promotion_invalidation(group_id: u128, previous_revision: u64) -> (res: GroupColorInvalidation)
    ensures
        res.group_id == group_id,
        res.scope == GroupColorInvalidationScope::GroupColorOnly,
        res.previous_revision == previous_revision,
        res.next_revision == (if previous_revision == u64::MAX { u64::MAX } else { (previous_revision + 1) as u64 }),
{
    GroupColorInvalidation {
        group_id,
        scope: GroupColorInvalidationScope::GroupColorOnly,
        previous_revision,
        next_revision: previous_revision.saturating_add(1),
    }
}

} // verus!
