//! The RAW catalog: assets keyed by their source path, automatic and manual
//! groups, and the groups a collection shows once semantic refinement has
//! run. The database lives outside the library; what is decided here is which
//! identity an asset keeps, how group fields are stored, and which groups are
//! in effect.

use vstd::prelude::*;
use crate::grouping::{GroupingBasis, PhotoGroup, PhotoGroupKind};
use crate::path::chars_equal;
use crate::raw::RawAsset;
use crate::text::chars_of;

verus! {

pub enum CatalogError {
    Sqlite(String),
    Io(String),
    Uuid(String),
    InvalidGroupKind(String),
    InvalidGroupingBasis(String),
    InvalidSemanticGroupKind(String),
    SemanticParentMismatch { group_id: u128, parent_group_id: u128 },
}

/// The RAW catalog kept in the database at `path`.
pub struct RawCatalog {
    path: String,
}

impl RawCatalog {
    pub closed spec fn location(&self) -> Seq<char> {
        self.path@
    }

    /// The catalog kept at `path`; opening the database is the caller's part.
    pub fn at(path: String) -> (res: Self)
        ensures
            res.location() == path@,
    {
        RawCatalog { path }
    }

    pub fn path(&self) -> (res: &str)
        ensures
            res@ == self.location(),
    {
        self.path.as_str()
    }
}

impl Clone for RawCatalog {
    fn clone(&self) -> (res: Self)
        ensures
            res.location() == self.location(),
    {
        RawCatalog { path: self.path.clone() }
    }
}

pub fn bool_to_int(value: bool) -> (res: i64)
    ensures
        res == (if value { 1i64 } else { 0i64 }),
{
    if value {
        1
    } else {
        0
    }
}

// ----- stored names -----

pub open spec fn kind_text(k: PhotoGroupKind) -> Seq<char> {
    match k {
        PhotoGroupKind::Moment => "MOMENT"@,
        PhotoGroupKind::Similar => "SIMILAR"@,
        PhotoGroupKind::Manual => "MANUAL"@,
    }
}

pub open spec fn kind_named(t: Seq<char>) -> Option<PhotoGroupKind> {
    if t == kind_text(PhotoGroupKind::Moment) {
        Some(PhotoGroupKind::Moment)
    } else if t == kind_text(PhotoGroupKind::Similar) {
        Some(PhotoGroupKind::Similar)
    } else if t == kind_text(PhotoGroupKind::Manual) {
        Some(PhotoGroupKind::Manual)
    } else {
        None
    }
}

pub open spec fn basis_text(b: GroupingBasis) -> Seq<char> {
    match b {
        GroupingBasis::Time => "TIME"@,
        GroupingBasis::TimeAndSequence => "TIME_AND_SEQUENCE"@,
        GroupingBasis::SequenceFallback => "SEQUENCE_FALLBACK"@,
        GroupingBasis::SemanticSimilarity => "SEMANTIC_SIMILARITY"@,
        GroupingBasis::Singleton => "SINGLETON"@,
    }
}

pub open spec fn basis_named(t: Seq<char>) -> Option<GroupingBasis> {
    if t == basis_text(GroupingBasis::Time) {
        Some(GroupingBasis::Time)
    } else if t == basis_text(GroupingBasis::TimeAndSequence) {
        Some(GroupingBasis::TimeAndSequence)
    } else if t == basis_text(GroupingBasis::SequenceFallback) {
        Some(GroupingBasis::SequenceFallback)
    } else if t == basis_text(GroupingBasis::SemanticSimilarity) {
        Some(GroupingBasis::SemanticSimilarity)
    } else if t == basis_text(GroupingBasis::Singleton) {
        Some(GroupingBasis::Singleton)
    } else {
        None
    }
}

/// A stored group kind reads back as the kind that was written.
pub proof fn kind_round_trip(k: PhotoGroupKind)
    ensures
        kind_named(kind_text(k)) == Some(k),
{
    reveal_strlit("MOMENT");
    reveal_strlit("SIMILAR");
    reveal_strlit("MANUAL");
    let t = kind_text(k);
    match k {
        PhotoGroupKind::Moment => {},
        PhotoGroupKind::Similar => {
            assert(t.len() != kind_text(PhotoGroupKind::Moment).len());
        },
        PhotoGroupKind::Manual => {
            assert(t[1] != kind_text(PhotoGroupKind::Moment)[1]);
            assert(t.len() != kind_text(PhotoGroupKind::Similar).len());
        },
    }
}

/// A stored grouping basis reads back as the basis that was written.
pub proof fn basis_round_trip(b: GroupingBasis)
    ensures
        basis_named(basis_text(b)) == Some(b),
{
    reveal_strlit("TIME");
    reveal_strlit("TIME_AND_SEQUENCE");
    reveal_strlit("SEQUENCE_FALLBACK");
    reveal_strlit("SEMANTIC_SIMILARITY");
    reveal_strlit("SINGLETON");
    let t = basis_text(b);
    let ts = basis_text(GroupingBasis::TimeAndSequence);
    let sf = basis_text(GroupingBasis::SequenceFallback);
    let ss = basis_text(GroupingBasis::SemanticSimilarity);
    match b {
        GroupingBasis::Time => {},
        GroupingBasis::TimeAndSequence => {
            assert(t.len() != basis_text(GroupingBasis::Time).len());
        },
        GroupingBasis::SequenceFallback => {
            assert(t[0] != basis_text(GroupingBasis::Time)[0]);
            assert(t[0] != ts[0]);
        },
        GroupingBasis::SemanticSimilarity => {
            assert(t[0] != basis_text(GroupingBasis::Time)[0]);
            assert(t[0] != ts[0]);
            assert(t.len() != sf.len());
        },
        GroupingBasis::Singleton => {
            assert(t[0] != basis_text(GroupingBasis::Time)[0]);
            assert(t[0] != ts[0]);
            assert(t.len() != sf.len());
            assert(t.len() != ss.len());
        },
    }
}

pub fn group_kind_to_db(value: PhotoGroupKind) -> (res: &'static str)
    ensures
        res@ == kind_text(value),
{
    match value {
        PhotoGroupKind::Moment => "MOMENT",
        PhotoGroupKind::Similar => "SIMILAR",
        PhotoGroupKind::Manual => "MANUAL",
    }
}

pub fn grouping_basis_to_db(value: GroupingBasis) -> (res: &'static str)
    ensures
        res@ == basis_text(value),
{
    match value {
        GroupingBasis::Time => "TIME",
        GroupingBasis::TimeAndSequence => "TIME_AND_SEQUENCE",
        GroupingBasis::SequenceFallback => "SEQUENCE_FALLBACK",
        GroupingBasis::SemanticSimilarity => "SEMANTIC_SIMILARITY",
        GroupingBasis::Singleton => "SINGLETON",
    }
}

fn is_kind(t: &Vec<char>, k: PhotoGroupKind) -> (res: bool)
    ensures
        res == (t@ == kind_text(k)),
{
    chars_equal(t, &chars_of(group_kind_to_db(k)))
}

fn is_basis(t: &Vec<char>, b: GroupingBasis) -> (res: bool)
    ensures
        res == (t@ == basis_text(b)),
{
    chars_equal(t, &chars_of(grouping_basis_to_db(b)))
}

pub fn group_kind_from_db(value: &str) -> (res: Result<PhotoGroupKind, CatalogError>)
    ensures
        match kind_named(value@) {
            Some(k) => res == Ok::<PhotoGroupKind, CatalogError>(k),
            None => res matches Err(CatalogError::InvalidGroupKind(t)) && t@ == value@,
        },
{
    let t = chars_of(value);
    if is_kind(&t, PhotoGroupKind::Moment) {
        Ok(PhotoGroupKind::Moment)
    } else if is_kind(&t, PhotoGroupKind::Similar) {
        Ok(PhotoGroupKind::Similar)
    } else if is_kind(&t, PhotoGroupKind::Manual) {
        Ok(PhotoGroupKind::Manual)
    } else {
        Err(CatalogError::InvalidGroupKind(value.to_owned()))
    }
}

pub fn grouping_basis_from_db(value: &str) -> (res: Result<GroupingBasis, CatalogError>)
    ensures
        match basis_named(value@) {
            Some(b) => res == Ok::<GroupingBasis, CatalogError>(b),
            None => res matches Err(CatalogError::InvalidGroupingBasis(t)) && t@ == value@,
        },
{
    let t = chars_of(value);
    if is_basis(&t, GroupingBasis::Time) {
        Ok(GroupingBasis::Time)
    } else if is_basis(&t, GroupingBasis::TimeAndSequence) {
        Ok(GroupingBasis::TimeAndSequence)
    } else if is_basis(&t, GroupingBasis::SequenceFallback) {
        Ok(GroupingBasis::SequenceFallback)
    } else if is_basis(&t, GroupingBasis::SemanticSimilarity) {
        Ok(GroupingBasis::SemanticSimilarity)
    } else if is_basis(&t, GroupingBasis::Singleton) {
        Ok(GroupingBasis::Singleton)
    } else {
        Err(CatalogError::InvalidGroupingBasis(value.to_owned()))
    }
}

// ----- asset identity -----

/// The asset as the catalog keeps it: an asset whose source path is already
/// catalogued keeps the catalogued id and takes the new file facts; a new
/// one keeps its own id.
pub open spec fn canonical(incoming: RawAsset, existing_id: Option<u128>, res: RawAsset) -> bool {
    &&& res.id == (match existing_id { Some(id) => id, None => incoming.id })
    &&& res.source_path@ == incoming.source_path@
    &&& res.filename@ == incoming.filename@
    &&& res.extension@ == incoming.extension@
    &&& res.camera_id == incoming.camera_id
    &&& res.capture_time_ms == incoming.capture_time_ms
    &&& res.file_time_ms == incoming.file_time_ms
    &&& res.sequence_number == incoming.sequence_number
}

pub fn canonical_asset(incoming: &RawAsset, existing_id: Option<u128>) -> (res: RawAsset)
    ensures
        canonical(*incoming, existing_id, res),
{
    let mut asset = incoming.clone();
    match existing_id {
        Some(id) => asset.id = id,
        None => {},
    }
    asset
}

/// Importing the same source twice gives it one identity: whatever id the
/// second import generated, the catalogued asset keeps the first one.
pub proof fn reimport_keeps_identity(first: RawAsset, again: RawAsset, stored: RawAsset, res: RawAsset)
    requires
        canonical(first, None, stored),
        canonical(again, Some(stored.id), res),
    ensures
        res.id == first.id,
{
}

// ----- groups in effect -----

/// The semantic groups replacing a parent must all belong to it: the first
/// group `(id, parent)` with another parent is reported.
pub fn check_semantic_parents(parent_group_id: u128, groups: &[(u128, u128)]) -> (res: Result<(), CatalogError>)
    ensures
        match res {
            Ok(()) => forall|i: int| 0 <= i < groups@.len() ==> #[trigger] groups@[i].1 == parent_group_id,
            Err(e) => exists|i: int| 0 <= i < groups@.len() && #[trigger] groups@[i].1 != parent_group_id
                && (forall|j: int| 0 <= j < i ==> #[trigger] groups@[j].1 == parent_group_id)
                && e == (CatalogError::SemanticParentMismatch { group_id: groups@[i].0, parent_group_id }),
        },
{
    let mut i: usize = 0;
    while i < groups.len()
        invariant
            i <= groups@.len(),
            forall|j: int| 0 <= j < i ==> #[trigger] groups@[j].1 == parent_group_id,
        decreases groups@.len() - i,
    {
        if groups[i].1 != parent_group_id {
            return Err(CatalogError::SemanticParentMismatch { group_id: groups[i].0, parent_group_id });
        }
        i += 1;
    }
    Ok(())
}

/// What a parent group contributes to a collection: itself when it is locked
/// by hand or was not refined, else its semantic refinements.
pub open spec fn effective_for(parent: PhotoGroup, refined: Seq<PhotoGroup>) -> Seq<PhotoGroup> {
    if parent.manual_locked || refined.len() == 0 {
        seq![parent]
    } else {
        refined
    }
}

pub open spec fn effective_all(parents: Seq<PhotoGroup>, refined: Seq<Seq<PhotoGroup>>) -> Seq<PhotoGroup>
    decreases parents.len(),
{
    if parents.len() == 0 {
        seq![]
    } else {
        effective_for(parents[0], refined[0]) + effective_all(parents.drop_first(), refined.drop_first())
    }
}

pub open spec fn refined_views(refined: Seq<Vec<PhotoGroup>>) -> Seq<Seq<PhotoGroup>> {
    refined.map_values(|v: Vec<PhotoGroup>| v@)
}

/// The groups a collection shows, parent by parent in order; `refined[i]`
/// holds the semantic refinements of `parents[i]`.
pub fn effective_groups(parents: Vec<PhotoGroup>, refined: Vec<Vec<PhotoGroup>>) -> (res: Vec<PhotoGroup>)
    requires
        parents@.len() == refined@.len(),
    ensures
        res@ == effective_all(parents@, refined_views(refined@)),
{
    let ghost all_p = parents@;
    let ghost all_r = refined_views(refined@);
    let mut parents = parents;
    let mut refined = refined;
    let mut out: Vec<PhotoGroup> = Vec::new();
    while parents.len() > 0
        invariant
            parents@.len() == refined@.len(),
            out@ + effective_all(parents@, refined_views(refined@)) == effective_all(all_p, all_r),
        decreases parents@.len(),
    {
        let ghost before_p = parents@;
        let ghost before_r = refined_views(refined@);
        let parent = parents.remove(0);
        let mut group = refined.remove(0);
        assert(parents@ =~= before_p.drop_first());
        assert(refined_views(refined@) =~= before_r.drop_first());
        assert(group@ == before_r[0]);
        let ghost step = effective_for(parent, group@);
        if parent.manual_locked || group.len() == 0 {
            out.push(parent);
        } else {
            out.append(&mut group);
        }
        assert(out@ + effective_all(parents@, refined_views(refined@)) =~= effective_all(all_p, all_r));
    }
    assert(out@ + effective_all(parents@, refined_views(refined@)) =~= out@);
    out
}

/// A group locked by hand is never replaced by its refinements.
pub proof fn locked_group_stays(parent: PhotoGroup, refined: Seq<PhotoGroup>)
    requires
        parent.manual_locked,
    ensures
        effective_for(parent, refined) == seq![parent],
{
}

/// Two groups hold the same photos, in any order.
pub open spec fn same_members(left: Seq<u128>, right: Seq<u128>) -> bool {
    left.to_multiset() == right.to_multiset()
}

fn count_of(s: &Vec<u128>, x: u128) -> (c: usize)
    ensures
        c == s@.to_multiset().count(x),
{
    broadcast use vstd::seq_lib::group_to_multiset_ensures;
    broadcast use vstd::multiset::group_multiset_axioms;
    let mut c: usize = 0;
    let mut i: usize = 0;
    assert(s@.subrange(0, 0) =~= Seq::<u128>::empty());
    while i < s.len()
        invariant
            i <= s@.len(),
            c == s@.subrange(0, i as int).to_multiset().count(x),
            c <= i,
        decreases s@.len() - i,
    {
        let ghost pre = s@.subrange(0, i as int);
        assert(s@.subrange(0, i + 1) =~= pre.push(s@[i as int]));
        proof {
            vstd::seq_lib::to_multiset_build(pre, s@[i as int]);
        }
        assert(s@.subrange(0, i + 1).to_multiset() =~= pre.to_multiset().insert(s@[i as int]));
        if s[i] == x {
            c += 1;
        }
        i += 1;
    }
    assert(s@.subrange(0, s@.len() as int) =~= s@);
    c
}

fn same_asset_members(left: &Vec<u128>, right: &Vec<u128>) -> (res: bool)
    ensures
        res == same_members(left@, right@),
{
    broadcast use vstd::seq_lib::group_to_multiset_ensures;
    let mut i: usize = 0;
    while i < left.len()
        invariant
            i <= left@.len(),
            forall|k: int| 0 <= k < i ==> left@.to_multiset().count(#[trigger] left@[k]) == right@.to_multiset().count(left@[k]),
        decreases left@.len() - i,
    {
        if count_of(left, left[i]) != count_of(right, left[i]) {
            return false;
        }
        i += 1;
    }
    let mut j: usize = 0;
    while j < right.len()
        invariant
            j <= right@.len(),
            forall|k: int| 0 <= k < left@.len() ==> left@.to_multiset().count(#[trigger] left@[k]) == right@.to_multiset().count(left@[k]),
            forall|k: int| 0 <= k < j ==> left@.to_multiset().count(#[trigger] right@[k]) == right@.to_multiset().count(right@[k]),
        decreases right@.len() - j,
    {
        if count_of(left, right[j]) != count_of(right, right[j]) {
            return false;
        }
        j += 1;
    }
    assert(left@.to_multiset() =~= right@.to_multiset()) by {
        assert forall|x: u128| left@.to_multiset().count(x) == right@.to_multiset().count(x) by {
            if left@.contains(x) {
                let k = choose|k: int| 0 <= k < left@.len() && left@[k] == x;
                assert(left@.to_multiset().count(left@[k]) == right@.to_multiset().count(left@[k]));
            } else if right@.contains(x) {
                let k = choose|k: int| 0 <= k < right@.len() && right@[k] == x;
                assert(left@.to_multiset().count(right@[k]) == right@.to_multiset().count(right@[k]));
            }
        }
    }
    true
}

/// The id a refined group takes: that of the first existing group of the
/// same kind with the same photos, else its own.
pub open spec fn preserved_id(existing: Seq<PhotoGroup>, g: PhotoGroup) -> u128
    decreases existing.len(),
{
    if existing.len() == 0 {
        g.id
    } else if existing[0].kind == g.kind && same_members(existing[0].asset_ids@, g.asset_ids@) {
        existing[0].id
    } else {
        preserved_id(existing.drop_first(), g)
    }
}

fn preserved_id_exec(existing: &Vec<PhotoGroup>, g: &PhotoGroup) -> (res: u128)
    ensures
        res == preserved_id(existing@, *g),
{
    let mut i: usize = 0;
    assert(existing@.subrange(0, existing@.len() as int) =~= existing@);
    while i < existing.len()
        invariant
            i <= existing@.len(),
            preserved_id(existing@, *g) == preserved_id(existing@.subrange(i as int, existing@.len() as int), *g),
        decreases existing@.len() - i,
    {
        let ghost rest = existing@.subrange(i as int, existing@.len() as int);
        assert(rest[0] == existing@[i as int]);
        assert(rest.drop_first() =~= existing@.subrange(i + 1, existing@.len() as int));
        if existing[i].kind == g.kind && same_asset_members(&existing[i].asset_ids, &g.asset_ids) {
            return existing[i].id;
        }
        i += 1;
    }
    g.id
}

/// Refining a group again keeps the ids of its refinements: each refined
/// group whose kind and photos (in any order) match an existing refinement
/// takes that refinement's id, the first such when there are several;
/// everything else about each group stays.
pub fn preserve_semantic_group_ids(existing: &Vec<PhotoGroup>, refined: &mut Vec<PhotoGroup>)
    ensures
        final(refined)@.len() == old(refined)@.len(),
        forall|i: int| 0 <= i < old(refined)@.len() ==> {
            &&& (#[trigger] final(refined)@[i]).id == preserved_id(existing@, old(refined)@[i])
            &&& final(refined)@[i].kind == old(refined)@[i].kind
            &&& final(refined)@[i].basis == old(refined)@[i].basis
            &&& final(refined)@[i].asset_ids@ == old(refined)@[i].asset_ids@
            &&& final(refined)@[i].manual_locked == old(refined)@[i].manual_locked
        },
{
    let ghost before = refined@;
    let mut i: usize = 0;
    while i < refined.len()
        invariant
            i <= refined@.len(),
            refined@.len() == before.len(),
            forall|k: int| i <= k < before.len() ==> refined@[k] == before[k],
            forall|k: int| 0 <= k < i ==> {
                &&& (#[trigger] refined@[k]).id == preserved_id(existing@, before[k])
                &&& refined@[k].kind == before[k].kind
                &&& refined@[k].basis == before[k].basis
                &&& refined@[k].asset_ids@ == before[k].asset_ids@
                &&& refined@[k].manual_locked == before[k].manual_locked
            },
        decreases refined@.len() - i,
    {
        let id = preserved_id_exec(existing, &refined[i]);
        let g = &refined[i];
        let updated = PhotoGroup {
            id,
            kind: g.kind,
            basis: g.basis,
            asset_ids: g.asset_ids.clone(),
            manual_locked: g.manual_locked,
        };
        assert(updated.asset_ids@ =~= before[i as int].asset_ids@);
        refined.set(i, updated);
        i += 1;
    }
}

} // verus!
