//! Reference sets and which photo each group uses as its reference. A group
//! is bound only to a photo of the reference set it is bound to.

use vstd::prelude::*;

verus! {

#[derive(PartialEq, Eq, Structural, Clone, Copy, Debug)]
pub struct GroupReferenceBinding {
    pub group_id: u128,
    pub reference_set_id: u128,
    pub selected_reference_asset_id: u128,
}

pub enum ReferenceStoreError {
    Sqlite(String),
    Io(String),
    Json(String),
    Uuid(String),
    ReferenceSetNotFound(u128),
    SelectedAssetOutsideSet { reference_set_id: u128, asset_id: u128 },
}

/// The reference sets and group bindings kept in the database at `path`.
pub struct ReferenceStore {
    path: String,
}

impl ReferenceStore {
    pub closed spec fn location(&self) -> Seq<char> {
        self.path@
    }

    /// The store kept at `path`; opening the database is the caller's part.
    pub fn at(path: String) -> (res: Self)
        ensures
            res.location() == path@,
    {
        ReferenceStore { path }
    }

    pub fn path(&self) -> (res: &str)
        ensures
            res@ == self.location(),
    {
        self.path.as_str()
    }
}

impl Clone for ReferenceStore {
    fn clone(&self) -> (res: Self)
        ensures
            res.location() == self.location(),
    {
        ReferenceStore { path: self.path.clone() }
    }
}

/// The binding of `group_id` to `reference_set_id` with `selected` as its
/// reference, given the photos of the stored set (`None` when there is no
/// such set): the set must exist and hold the selected photo.
pub fn group_binding_for(group_id: u128, reference_set_id: u128, set_photo_ids: Option<&[u128]>, selected: u128) -> (res: Result<GroupReferenceBinding, ReferenceStoreError>)
    ensures
        match set_photo_ids {
            None => res == Err::<GroupReferenceBinding, ReferenceStoreError>(ReferenceStoreError::ReferenceSetNotFound(reference_set_id)),
            Some(photos) => if photos@.contains(selected) {
                res == Ok::<GroupReferenceBinding, ReferenceStoreError>(GroupReferenceBinding {
                    group_id,
                    reference_set_id,
                    selected_reference_asset_id: selected,
                })
            } else {
                res == Err::<GroupReferenceBinding, ReferenceStoreError>(ReferenceStoreError::SelectedAssetOutsideSet {
                    reference_set_id,
                    asset_id: selected,
                })
            },
        },
{
    let photos = match set_photo_ids {
        None => return Err(ReferenceStoreError::ReferenceSetNotFound(reference_set_id)),
        Some(p) => p,
    };
    if !crate::ids::id_listed(photos, selected) {
        return Err(ReferenceStoreError::SelectedAssetOutsideSet { reference_set_id, asset_id: selected });
    }
    Ok(GroupReferenceBinding { group_id, reference_set_id, selected_reference_asset_id: selected })
}

} // verus!
