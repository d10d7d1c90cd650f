use photo_core::catalog::preserve_semantic_group_ids;
use photo_core::grouping::{GroupingBasis, PhotoGroup, PhotoGroupKind};

fn group(id: u128, kind: PhotoGroupKind, asset_ids: Vec<u128>) -> PhotoGroup {
    PhotoGroup { id, kind, basis: GroupingBasis::SemanticSimilarity, asset_ids, manual_locked: false }
}

#[test]
fn refined_groups_with_unchanged_members_keep_their_ids() {
    let existing = vec![
        group(0x10, PhotoGroupKind::Similar, vec![1, 2]),
        group(0x11, PhotoGroupKind::Similar, vec![3]),
    ];
    let mut refined = vec![
        group(0x20, PhotoGroupKind::Similar, vec![2, 1]),
        group(0x21, PhotoGroupKind::Similar, vec![3, 4]),
        group(0x22, PhotoGroupKind::Moment, vec![3]),
    ];
    preserve_semantic_group_ids(&existing, &mut refined);
    assert_eq!(refined[0].id, 0x10);
    assert_eq!(refined[0].asset_ids, vec![2, 1]);
    assert_eq!(refined[1].id, 0x21);
    assert_eq!(refined[2].id, 0x22);
}

#[test]
fn membership_compares_repeated_photos_by_count() {
    let existing = vec![group(0x30, PhotoGroupKind::Similar, vec![1, 1, 2])];
    let mut refined = vec![
        group(0x40, PhotoGroupKind::Similar, vec![1, 2, 2]),
        group(0x41, PhotoGroupKind::Similar, vec![2, 1, 1]),
    ];
    preserve_semantic_group_ids(&existing, &mut refined);
    assert_eq!(refined[0].id, 0x40);
    assert_eq!(refined[1].id, 0x30);
}
