use photo_core::metadata::{
    combine_camera_id, normalize_text, parse_exif_datetime_ms, rational_pair, rational_triple,
    RawMetadataEvidence, RawRational, RawWhiteBalanceEvidence,
};
use photo_core::raw::{extract_sequence_number, is_supported_raw, scan_raw_paths, ScannedPath};

#[test]
fn accepts_common_raw_and_rejects_rendered_formats() {
    assert!(is_supported_raw("A.CR3"));
    assert!(is_supported_raw("B.nef"));
    assert!(is_supported_raw("C.ARW"));
    assert!(!is_supported_raw("D.jpg"));
    assert!(!is_supported_raw("E.tiff"));
    assert!(!is_supported_raw("F.png"));
    assert!(!is_supported_raw("G.heic"));
}

#[test]
fn extracts_trailing_sequence_number() {
    assert_eq!(extract_sequence_number("DSC_1042.ARW"), Some(1042));
    assert_eq!(extract_sequence_number("IMG000123.CR3"), Some(123));
    assert_eq!(extract_sequence_number("portrait-final.NEF"), None);
}

#[test]
fn raw_detection_uses_the_final_component_of_a_path() {
    assert!(is_supported_raw("/shoot/day-1/IMG_0001.dng"));
    assert!(is_supported_raw("/shoot/raw.cr3/"));
    assert!(!is_supported_raw(".cr3"));
    assert!(!is_supported_raw("noextension"));
    assert!(is_supported_raw("archive.tar.RW2"));
}

#[test]
fn sequence_number_edge_cases() {
    assert_eq!(extract_sequence_number("dir/IMG_0007.CR3"), Some(7));
    assert_eq!(extract_sequence_number("12345"), Some(12345));
    assert_eq!(extract_sequence_number("IMG_99999999999999999999.CR3"), None);
    assert_eq!(extract_sequence_number("IMG_18446744073709551615.CR3"), Some(u64::MAX));
    assert_eq!(extract_sequence_number(""), None);
}

#[test]
fn scan_splits_raw_and_other_files_in_order() {
    let scan = scan_raw_paths(vec![
        ScannedPath { path: "shoot/IMG_0001.CR3".to_string(), modified_ms: Some(10) },
        ScannedPath { path: "shoot/IMG_0001.JPG".to_string(), modified_ms: Some(11) },
        ScannedPath { path: "shoot/DSC_0042.nef".to_string(), modified_ms: None },
    ]);
    assert_eq!(scan.assets.len(), 2);
    assert_eq!(scan.assets[0].filename, "IMG_0001.CR3");
    assert_eq!(scan.assets[0].extension, "cr3");
    assert_eq!(scan.assets[0].file_time_ms, Some(10));
    assert_eq!(scan.assets[0].sequence_number, Some(1));
    assert_eq!(scan.assets[1].filename, "DSC_0042.nef");
    assert_eq!(scan.assets[1].sequence_number, Some(42));
    assert_ne!(scan.assets[0].id, scan.assets[1].id);
    assert_eq!(scan.skipped_non_raw, vec!["shoot/IMG_0001.JPG".to_string()]);
}

#[test]
fn camera_identity_avoids_duplicate_make_prefix() {
    assert_eq!(
        combine_camera_id(Some("SONY"), Some("SONY ILCE-7M4")),
        Some("SONY ILCE-7M4".into())
    );
    assert_eq!(
        combine_camera_id(Some("Canon"), Some("EOS R5")),
        Some("Canon EOS R5".into())
    );
}

#[test]
fn camera_identity_with_one_side_missing() {
    assert_eq!(combine_camera_id(Some("NIKON"), None), Some("NIKON".into()));
    assert_eq!(combine_camera_id(None, Some("Z 8")), Some("Z 8".into()));
    assert_eq!(combine_camera_id(None, None), None);
    assert_eq!(
        combine_camera_id(Some("nikon corporation"), Some("NIKON CORPORATION Z 8")),
        Some("NIKON CORPORATION Z 8".into())
    );
}

#[test]
fn normalized_text_trims_nul_and_collapses_spaces() {
    assert_eq!(normalize_text("  Canon \0"), "Canon");
    assert_eq!(normalize_text("EOS   R5\tMark  II\0\0"), "EOS R5 Mark II");
    assert_eq!(normalize_text("\0\0"), "");
}

#[test]
fn parses_exif_datetime_for_group_timeline() {
    let first = parse_exif_datetime_ms("2026:09:18 14:30:10").unwrap();
    let second = parse_exif_datetime_ms("2026:09:18 14:30:15").unwrap();
    assert_eq!(second - first, 5_000);
}

#[test]
fn validates_leap_day_and_rejects_invalid_dates() {
    assert!(parse_exif_datetime_ms("2024:02:29 23:59:59").is_some());
    assert!(parse_exif_datetime_ms("2025:02:29 12:00:00").is_none());
    assert!(parse_exif_datetime_ms("2026:13:01 12:00:00").is_none());
}

#[test]
fn exif_datetime_exact_values() {
    assert_eq!(parse_exif_datetime_ms("1970:01:01 00:00:00"), Some(0));
    assert_eq!(parse_exif_datetime_ms("1970:01:02 00:00:01"), Some(86_401_000));
    assert_eq!(parse_exif_datetime_ms("2000:03:01 00:00:00"), Some(951_868_800_000));
    assert_eq!(parse_exif_datetime_ms(" 2000:03:01 00:00:00\0"), Some(951_868_800_000));
    assert_eq!(parse_exif_datetime_ms("1969:12:31 23:59:59"), Some(-1_000));
    assert_eq!(parse_exif_datetime_ms("2016:12:31 23:59:60"), parse_exif_datetime_ms("2016:12:31 23:59:59"));
    assert_eq!(parse_exif_datetime_ms("+2016:+12:31 23:59:59"), parse_exif_datetime_ms("2016:12:31 23:59:59"));
    assert!(parse_exif_datetime_ms("0000:01:01 00:00:00").is_none());
    assert!(parse_exif_datetime_ms("2016:12:31").is_none());
    assert!(parse_exif_datetime_ms("2016:12:31 10:00:00 extra").is_none());
    assert!(parse_exif_datetime_ms("2016:12:31:01 10:00:00").is_none());
    assert!(parse_exif_datetime_ms("2016:12:31 24:00:00").is_none());
    assert!(parse_exif_datetime_ms("2016:12:31 10:60:00").is_none());
    assert!(parse_exif_datetime_ms("2016:12:31 10:00:61").is_none());
    assert!(parse_exif_datetime_ms("2016:12:00 10:00:00").is_none());
    assert!(parse_exif_datetime_ms("1900:02:29 10:00:00").is_none());
    assert!(parse_exif_datetime_ms("2000:02:29 10:00:00").is_some());
}

#[test]
fn raw_white_balance_evidence_is_exact_and_never_implies_kelvin() {
    let evidence = RawWhiteBalanceEvidence {
        as_shot_neutral: Some([
            RawRational { num: 1, denom: 2 },
            RawRational { num: 1, denom: 1 },
            RawRational { num: 3, denom: 5 },
        ]),
        as_shot_white_xy: None,
    };
    assert!(!evidence.is_empty());
}

#[test]
fn white_balance_rationals_need_exact_count_and_nonzero_denominators() {
    let one = RawRational { num: 1, denom: 1 };
    let zero = RawRational { num: 1, denom: 0 };
    assert_eq!(rational_triple(&[one, one, one]), Some([one, one, one]));
    assert_eq!(rational_triple(&[one, one]), None);
    assert_eq!(rational_triple(&[one, zero, one]), None);
    assert_eq!(rational_pair(&[one, one]), Some([one, one]));
    assert_eq!(rational_pair(&[one, one, one]), None);
    let empty = RawWhiteBalanceEvidence { as_shot_neutral: None, as_shot_white_xy: None };
    assert!(empty.is_empty());
    let default = RawMetadataEvidence::default();
    assert!(default.camera_id.is_none() && default.capture_time_ms.is_none() && default.white_balance.is_none());
}
