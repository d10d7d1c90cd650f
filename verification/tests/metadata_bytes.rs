use photo_core::metadata::{raw_metadata_from_bytes, RawMetadataEvidence, RawRational, RawWhiteBalanceEvidence};
use photo_core::metadata_store::merged_evidence;

/// A little-endian TIFF whose first IFD holds the given ASCII fields, sorted
/// by tag.
fn tiff_with_ascii(fields: &[(u16, &str)]) -> Vec<u8> {
    let mut bytes = b"II*\0".to_vec();
    bytes.extend_from_slice(&8u32.to_le_bytes());
    let count = fields.len() as u16;
    let data_start = 8 + 2 + 12 * fields.len() as u32 + 4;
    let mut data: Vec<u8> = Vec::new();
    bytes.extend_from_slice(&count.to_le_bytes());
    for (tag, text) in fields {
        let mut value = text.as_bytes().to_vec();
        value.push(0);
        bytes.extend_from_slice(&tag.to_le_bytes());
        bytes.extend_from_slice(&2u16.to_le_bytes());
        bytes.extend_from_slice(&(value.len() as u32).to_le_bytes());
        if value.len() <= 4 {
            value.resize(4, 0);
            bytes.extend_from_slice(&value);
        } else {
            bytes.extend_from_slice(&(data_start + data.len() as u32).to_le_bytes());
            data.extend_from_slice(&value);
            if data.len() % 2 == 1 {
                data.push(0);
            }
        }
    }
    bytes.extend_from_slice(&0u32.to_le_bytes());
    bytes.extend_from_slice(&data);
    bytes
}

#[test]
fn unreadable_or_non_exif_file_returns_empty_evidence() {
    let evidence = raw_metadata_from_bytes(b"not-real-raw").unwrap();
    assert_eq!(evidence.camera_id, None);
    assert_eq!(evidence.capture_time_ms, None);
    assert!(evidence.white_balance.is_none());
}

#[test]
fn tiff_fields_give_camera_and_capture_time() {
    let bytes = tiff_with_ascii(&[(0x010f, "Canon"), (0x0110, "Canon EOS R5"), (0x0132, "2024:05:01 10:20:30")]);
    let evidence = raw_metadata_from_bytes(&bytes).unwrap();
    assert_eq!(evidence.camera_id, Some("Canon EOS R5".to_string()));
    assert_eq!(evidence.capture_time_ms, Some(1_714_558_830_000));
    assert!(evidence.white_balance.is_none());
}

#[test]
fn tiff_with_model_alone_names_the_camera_by_model() {
    let bytes = tiff_with_ascii(&[(0x0110, "  ILCE-7M4  ")]);
    let evidence = raw_metadata_from_bytes(&bytes).unwrap();
    assert_eq!(evidence.camera_id, Some("ILCE-7M4".to_string()));
    assert_eq!(evidence.capture_time_ms, None);
}

fn neutral() -> RawWhiteBalanceEvidence {
    RawWhiteBalanceEvidence {
        as_shot_neutral: Some([
            RawRational { num: 2, denom: 5 },
            RawRational { num: 1, denom: 1 },
            RawRational { num: 3, denom: 5 },
        ]),
        as_shot_white_xy: None,
    }
}

#[test]
fn rescan_does_not_erase_existing_white_balance_evidence() {
    let original = RawMetadataEvidence {
        camera_id: Some("SONY ILCE-7M4".into()),
        capture_time_ms: Some(1_800_000_000_000),
        white_balance: Some(neutral()),
    };
    let rescan = RawMetadataEvidence { camera_id: None, capture_time_ms: None, white_balance: None };
    let merged = merged_evidence(&rescan, Some(original));

    assert_eq!(merged.camera_id, Some("SONY ILCE-7M4".to_string()));
    assert_eq!(merged.capture_time_ms, Some(1_800_000_000_000));
    assert_eq!(merged.white_balance.and_then(|w| w.as_shot_neutral), neutral().as_shot_neutral);
}

#[test]
fn rescan_findings_replace_stored_ones() {
    let stored = RawMetadataEvidence {
        camera_id: Some("Leica Q3".into()),
        capture_time_ms: Some(1_800_000_000_000),
        white_balance: None,
    };
    let scanned = RawMetadataEvidence {
        camera_id: Some("Leica Q3 43".into()),
        capture_time_ms: None,
        white_balance: Some(neutral()),
    };
    let merged = merged_evidence(&scanned, Some(stored));
    assert_eq!(merged.camera_id, Some("Leica Q3 43".to_string()));
    assert_eq!(merged.capture_time_ms, Some(1_800_000_000_000));
    assert!(merged.white_balance.is_some());

    let first = merged_evidence(&scanned, None);
    assert_eq!(first.camera_id, Some("Leica Q3 43".to_string()));
    assert_eq!(first.capture_time_ms, None);
}
