use photo_core::grouping::{initial_group_raw_assets, timeline_order, GroupingBasis, InitialGroupingConfig, PhotoGroupKind};
use photo_core::raw::{extract_sequence_number, RawAsset};

fn asset(id: u128, name: &str, time: Option<i64>, camera: Option<&str>) -> RawAsset {
    RawAsset {
        id,
        source_path: name.to_string(),
        filename: name.to_string(),
        extension: "cr3".to_string(),
        camera_id: camera.map(str::to_string),
        capture_time_ms: time,
        file_time_ms: None,
        sequence_number: extract_sequence_number(name),
    }
}

#[test]
fn groups_a_short_burst_and_splits_a_later_scene() {
    let assets = vec![
        asset(1, "IMG_1001.CR3", Some(0), Some("cam-a")),
        asset(2, "IMG_1002.CR3", Some(700), Some("cam-a")),
        asset(3, "IMG_1003.CR3", Some(1_400), Some("cam-a")),
        asset(4, "IMG_1004.CR3", Some(15_000), Some("cam-a")),
    ];

    let groups = initial_group_raw_assets(&assets, InitialGroupingConfig::default());
    assert_eq!(groups.len(), 2);
    assert_eq!(groups[0].asset_ids.len(), 3);
    assert_eq!(groups[1].asset_ids.len(), 1);
}

#[test]
fn different_known_cameras_do_not_merge() {
    let assets = vec![
        asset(1, "IMG_1001.CR3", Some(0), Some("cam-a")),
        asset(2, "IMG_1002.CR3", Some(500), Some("cam-b")),
    ];

    let groups = initial_group_raw_assets(&assets, InitialGroupingConfig::default());
    assert_eq!(groups.len(), 2);
}

#[test]
fn sequence_can_group_when_time_is_unavailable() {
    let assets = vec![
        asset(1, "DSC_0200.NEF", None, None),
        asset(2, "DSC_0201.NEF", None, None),
    ];

    let groups = initial_group_raw_assets(&assets, InitialGroupingConfig::default());
    assert_eq!(groups.len(), 1);
    assert_eq!(groups[0].basis, GroupingBasis::SequenceFallback);
}

#[test]
fn empty_import_has_no_groups() {
    assert!(initial_group_raw_assets(&[], InitialGroupingConfig::default()).is_empty());
}

#[test]
fn groups_follow_timeline_order_not_input_order() {
    let assets = vec![
        asset(4, "IMG_1004.CR3", Some(15_000), Some("cam-a")),
        asset(2, "IMG_1002.CR3", Some(700), Some("cam-a")),
        asset(1, "IMG_1001.CR3", Some(0), Some("cam-a")),
        asset(9, "IMG_9999.CR3", None, None),
    ];
    assert_eq!(timeline_order(&assets), vec![2, 1, 0, 3]);
    let groups = initial_group_raw_assets(&assets, InitialGroupingConfig::default());
    assert_eq!(groups.len(), 3);
    assert_eq!(groups[0].asset_ids, vec![1, 2]);
    assert_eq!(groups[0].basis, GroupingBasis::TimeAndSequence);
    assert_eq!(groups[0].kind, PhotoGroupKind::Moment);
    assert!(!groups[0].manual_locked);
    assert_eq!(groups[1].asset_ids, vec![4]);
    assert_eq!(groups[1].basis, GroupingBasis::Singleton);
    assert_eq!(groups[2].asset_ids, vec![9]);
}

#[test]
fn wider_gap_needs_sequence_and_prefix() {
    let assets = vec![
        asset(1, "IMG_1001.CR3", Some(0), None),
        asset(2, "IMG_1002.CR3", Some(3_000), None),
        asset(3, "DSC_1003.CR3", Some(6_000), None),
    ];
    let groups = initial_group_raw_assets(&assets, InitialGroupingConfig::default());
    assert_eq!(groups.len(), 2);
    assert_eq!(groups[0].asset_ids, vec![1, 2]);
    assert_eq!(groups[1].asset_ids, vec![3]);
}

#[test]
fn close_times_without_sequence_group_by_time() {
    let assets = vec![
        asset(1, "alpha.CR3", Some(100), None),
        asset(2, "beta.CR3", Some(900), None),
    ];
    let groups = initial_group_raw_assets(&assets, InitialGroupingConfig::default());
    assert_eq!(groups.len(), 1);
    assert_eq!(groups[0].basis, GroupingBasis::Time);
}
