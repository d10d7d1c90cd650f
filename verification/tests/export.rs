use photo_core::export::{
    collision_candidate_path, collision_safe_output, plan_export, ExportColorSpace, ExportFormat,
    ExportPlanError, ExportRecipe, ResizeRecipe,
};
use photo_core::export_store::{
    new_reservation, partial_output_path, recipe_change_invalidates, recipe_fingerprint,
    reserve_checkpoint, stable_fingerprint, status_from_db, status_to_db, ExportCheckpoint,
    ExportStatus, ExportStoreError,
};
use photo_core::export_worker::{recover_interrupted_export, ExportJob};
use photo_core::path::{probe_step, ProbeStep};

fn jpeg_recipe(destination: &str) -> ExportRecipe {
    ExportRecipe {
        format: ExportFormat::Jpeg,
        jpeg_quality: Some(92),
        tiff_bit_depth: None,
        color_space: ExportColorSpace::Srgb,
        resize: None,
        preserve_metadata: true,
        destination: destination.to_string(),
        qa_approved_only: true,
    }
}

#[test]
fn source_directory_is_rejected() {
    let source = "trip/IMG_0001.CR3";
    let error = plan_export(source, &jpeg_recipe("trip")).err().unwrap();
    assert!(matches!(error, ExportPlanError::SourceDirectoryDestination));
}

#[test]
fn invalid_quality_is_rejected() {
    let mut recipe = jpeg_recipe("exports");
    recipe.jpeg_quality = Some(0);
    assert!(matches!(recipe.validate(), Err(ExportPlanError::InvalidRecipe(_))));
}

#[test]
fn plan_names_derivative_after_source_stem() {
    let plan = plan_export("raw/IMG_0001.CR3", &jpeg_recipe("exports")).ok().unwrap();
    assert_eq!(plan.output, "exports/IMG_0001.jpg");
    assert_eq!(plan.source, "raw/IMG_0001.CR3");
    let mut tiff = jpeg_recipe("out/");
    tiff.format = ExportFormat::Tiff;
    tiff.tiff_bit_depth = Some(16);
    let plan = plan_export("raw/IMG_0001.CR3", &tiff).ok().unwrap();
    assert_eq!(plan.output, "out/IMG_0001.tif");
}

#[test]
fn trailing_separator_still_names_the_source_directory() {
    let error = plan_export("trip/IMG_0001.CR3", &jpeg_recipe("trip/")).err().unwrap();
    assert!(matches!(error, ExportPlanError::SourceDirectoryDestination));
}

#[test]
fn recipe_errors_carry_their_reason() {
    let mut recipe = jpeg_recipe("exports");
    recipe.jpeg_quality = None;
    match recipe.validate() {
        Err(ExportPlanError::InvalidRecipe(m)) => assert_eq!(m, "JPEG quality is required"),
        _ => panic!("expected an invalid recipe"),
    }
    recipe.jpeg_quality = Some(101);
    match recipe.validate() {
        Err(ExportPlanError::InvalidRecipe(m)) => assert_eq!(m, "JPEG quality must be between 1 and 100"),
        _ => panic!("expected an invalid recipe"),
    }
    let mut tiff = jpeg_recipe("exports");
    tiff.format = ExportFormat::Tiff;
    tiff.tiff_bit_depth = Some(12);
    match tiff.validate() {
        Err(ExportPlanError::InvalidRecipe(m)) => assert_eq!(m, "TIFF bit depth must be 8 or 16"),
        _ => panic!("expected an invalid recipe"),
    }
    let mut resized = jpeg_recipe("exports");
    resized.resize = Some(ResizeRecipe { long_edge_px: 0, allow_upscale: false });
    match resized.validate() {
        Err(ExportPlanError::InvalidRecipe(m)) => assert_eq!(m, "resize long edge must be greater than zero"),
        _ => panic!("expected an invalid recipe"),
    }
}

#[test]
fn numbered_alternatives_keep_directory_and_extension() {
    assert_eq!(collision_candidate_path("exports/IMG_0001.jpg", 1), "exports/IMG_0001-1.jpg");
    assert_eq!(collision_candidate_path("exports/IMG_0001.jpg", 12), "exports/IMG_0001-12.jpg");
    assert_eq!(collision_candidate_path("exports/notes", 3), "exports/notes-3");
}

#[test]
fn free_planned_path_is_kept() {
    let planned = "/nonexistent-photo-core-test-dir/exports/IMG_0001.jpg";
    assert_eq!(collision_safe_output(planned), Some(planned.to_string()));
}

#[test]
fn fingerprint_is_fnv1a_in_sixteen_hex_digits() {
    assert_eq!(stable_fingerprint(b""), "cbf29ce484222325");
    assert_eq!(stable_fingerprint(b"a"), "af63dc4c8601ec8c");
    assert_eq!(stable_fingerprint(b"foobar"), "85944171f73967e8");
}

#[test]
fn recipe_fingerprint_needs_a_valid_recipe() {
    let recipe = jpeg_recipe("exports");
    assert_eq!(recipe_fingerprint(&recipe, b"a").ok().unwrap(), "af63dc4c8601ec8c");
    let mut bad = jpeg_recipe("exports");
    bad.jpeg_quality = None;
    assert!(matches!(recipe_fingerprint(&bad, b"a"), Err(ExportStoreError::Plan(ExportPlanError::InvalidRecipe(_)))));
}

#[test]
fn only_a_different_earlier_recipe_invalidates() {
    assert!(!recipe_change_invalidates(None, "abc"));
    assert!(!recipe_change_invalidates(Some("abc"), "abc"));
    assert!(recipe_change_invalidates(Some("abc"), "abd"));
}

#[test]
fn status_names_round_trip() {
    for status in [ExportStatus::Pending, ExportStatus::Running, ExportStatus::Failed, ExportStatus::Done, ExportStatus::Skipped] {
        assert_eq!(status_from_db(status_to_db(status)).ok(), Some(status));
    }
    assert_eq!(status_to_db(ExportStatus::Running), "RUNNING");
    match status_from_db("ABORTED") {
        Err(ExportStoreError::InvalidStatus(t)) => assert_eq!(t, "ABORTED"),
        _ => panic!("expected an invalid status"),
    }
}

fn checkpoint() -> ExportCheckpoint {
    ExportCheckpoint {
        batch_id: 7,
        item_id: 9,
        output_path: "out/a-1.jpg".to_string(),
        recipe_fingerprint: "af63dc4c8601ec8c".to_string(),
        status: ExportStatus::Pending,
        attempts: 0,
        last_error: None,
    }
}

#[test]
fn retry_keeps_reservation_and_counts_attempts() {
    let running = checkpoint().running();
    assert_eq!(running.status, ExportStatus::Running);
    assert_eq!(running.attempts, 1);
    let failed = running.failed("renderer failed".to_string());
    assert_eq!(failed.status, ExportStatus::Failed);
    assert_eq!(failed.last_error.as_deref(), Some("renderer failed"));
    let again = failed.running();
    assert_eq!(again.attempts, 2);
    assert_eq!(again.last_error, None);
    let done = again.done();
    assert_eq!(done.status, ExportStatus::Done);
    assert_eq!(done.output_path, "out/a-1.jpg");
    assert_eq!(done.attempts, 2);
}

#[test]
fn interrupted_export_recovers_by_output_state() {
    let running = checkpoint().running();
    let incomplete = running.recovery(false);
    assert_eq!(incomplete.checkpoint.status, ExportStatus::Pending);
    assert_eq!(incomplete.checkpoint.attempts, 1);
    assert_eq!(incomplete.checkpoint.output_path, "out/a-1.jpg");
    assert_eq!(incomplete.remove_partial, "out/a-1.partial");
    assert_eq!(incomplete.remove_output.as_deref(), Some("out/a-1.jpg"));
    let complete = running.recovery(true);
    assert_eq!(complete.checkpoint.status, ExportStatus::Done);
    assert_eq!(complete.remove_output, None);
}

#[test]
fn restart_returns_running_exports_to_pending() {
    assert_eq!(recover_interrupted_export(ExportStatus::Running), ExportStatus::Pending);
    assert_eq!(recover_interrupted_export(ExportStatus::Failed), ExportStatus::Failed);
    assert_eq!(recover_interrupted_export(ExportStatus::Done), ExportStatus::Done);
}

#[test]
fn partial_path_replaces_the_extension() {
    assert_eq!(partial_output_path("out/a.jpg"), "out/a.partial");
    assert_eq!(partial_output_path("out/archive.tar.gz"), "out/archive.tar.partial");
    assert_eq!(partial_output_path("out/noext"), "out/noext.partial");
    assert_eq!(partial_output_path("out/a.jpg/"), "out/a.partial");
    let job = ExportJob { photo_id: "p".to_string(), source: "raw/a.cr3".to_string(), output: "out/a.jpg".to_string() };
    assert_eq!(job.temporary_output(), "out/a.partial");
}

#[test]
fn reservation_needs_an_active_recipe() {
    match new_reservation(1, 2, "raw/a.cr3", None) {
        Err(ExportStoreError::Plan(ExportPlanError::InvalidRecipe(m))) => assert_eq!(m, "no active export recipe"),
        _ => panic!("expected a missing recipe"),
    }
}

#[test]
fn new_reservation_is_pending_at_the_planned_path() {
    let dest = "/nonexistent-photo-core-test-dir/out";
    let active = Some((jpeg_recipe(dest), "fp".to_string()));
    let c = new_reservation(1, 2, "raw/a.cr3", active).ok().unwrap();
    assert_eq!(c.output_path, "/nonexistent-photo-core-test-dir/out/a.jpg");
    assert_eq!(c.status, ExportStatus::Pending);
    assert_eq!(c.attempts, 0);
    assert_eq!(c.recipe_fingerprint, "fp");
    let existing = checkpoint().running();
    let kept = reserve_checkpoint(7, 9, "raw/a.cr3", Some(existing), None).ok().unwrap();
    assert_eq!(kept.output_path, "out/a-1.jpg");
    assert_eq!(kept.attempts, 1);
}

#[test]
fn free_name_search_takes_the_first_free_probe_and_stops_at_the_last_number() {
    assert_eq!(probe_step(0, false), ProbeStep::Take);
    assert_eq!(probe_step(0, true), ProbeStep::Next(1));
    assert_eq!(probe_step(41, true), ProbeStep::Next(42));
    assert_eq!(probe_step(u32::MAX, false), ProbeStep::Take);
    assert_eq!(probe_step(u32::MAX, true), ProbeStep::GiveUp);
}
