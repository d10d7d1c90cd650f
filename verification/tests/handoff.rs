use photo_core::handoff::{
    plan_lightroom_handoff, HandoffColorSpace, HandoffError, HandoffFormat, LightroomHandoffPreset,
    TiffCompression,
};
use photo_core::raw::RawAsset;

fn asset(source_path: &str) -> RawAsset {
    RawAsset {
        id: 0x0123,
        source_path: source_path.to_string(),
        filename: "IMG_0123.CR3".to_string(),
        extension: "cr3".to_string(),
        camera_id: None,
        capture_time_ms: None,
        file_time_ms: None,
        sequence_number: Some(123),
    }
}

#[test]
fn default_preset_is_16_bit_prophoto_zip_tiff() {
    let preset = LightroomHandoffPreset::default();
    assert_eq!(preset.format, HandoffFormat::Tiff);
    assert_eq!(preset.bit_depth, 16);
    assert_eq!(preset.color_space, HandoffColorSpace::ProPhotoRgb);
    assert_eq!(preset.compression, TiffCompression::Zip);
    assert!(preset.full_resolution);
    assert!(!preset.output_sharpening);
}

#[test]
fn rejects_output_inside_source_directory() {
    let raw = "/nonexistent-photo-core-test-dir/2026-05-Europe/IMG_0123.CR3";
    let result = plan_lightroom_handoff(
        &asset(raw),
        "/nonexistent-photo-core-test-dir/2026-05-Europe/exports",
        LightroomHandoffPreset::default(),
    );
    assert!(matches!(result, Err(HandoffError::OutputInsideSource)));
    let same = plan_lightroom_handoff(&asset(raw), "/nonexistent-photo-core-test-dir/2026-05-Europe/", LightroomHandoffPreset::default());
    assert!(matches!(same, Err(HandoffError::OutputInsideSource)));
}

#[test]
fn handoff_master_is_named_after_the_raw() {
    let raw = "/nonexistent-photo-core-test-dir/source/IMG_0123.CR3";
    let plan = plan_lightroom_handoff(&asset(raw), "/nonexistent-photo-core-test-dir/handoff", LightroomHandoffPreset::default())
        .ok()
        .unwrap();
    assert_eq!(plan.output_path, "/nonexistent-photo-core-test-dir/handoff/IMG_0123-PC.tif");
    assert_eq!(plan.asset_id, 0x0123);
    assert_eq!(plan.source_path, raw);
    assert_eq!(plan.preset.bit_depth, 16);
}

#[test]
fn handoff_without_parent_or_stem_is_refused() {
    assert!(matches!(
        plan_lightroom_handoff(&asset("/"), "/elsewhere", LightroomHandoffPreset::default()),
        Err(HandoffError::MissingSourceParent(_))
    ));
    assert!(matches!(
        plan_lightroom_handoff(&asset("shoot/.."), "/elsewhere", LightroomHandoffPreset::default()),
        Err(HandoffError::MissingFileStem(_))
    ));
}

#[test]
fn source_without_directory_part_puts_every_output_inside_it() {
    // The parent of a bare file name is the empty path, and every path starts with it.
    let result = plan_lightroom_handoff(&asset("IMG_0123.CR3"), "/nonexistent-photo-core-test-dir/handoff", LightroomHandoffPreset::default());
    assert!(matches!(result, Err(HandoffError::OutputInsideSource)));
    let relative = plan_lightroom_handoff(&asset("IMG_0123.CR3"), "handoff", LightroomHandoffPreset::default());
    assert!(matches!(relative, Err(HandoffError::OutputInsideSource)));
}
