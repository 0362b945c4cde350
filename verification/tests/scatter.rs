use plinth::scatter::{default_align_to_surface, scatter_line, ScatterLine};

#[test]
fn scatter_lines_frame_their_keyword_and_payload() {
    assert_eq!(scatter_line("SCATTER_START"), Some((ScatterLine::Start, String::new())));
    assert_eq!(
        scatter_line("  SCATTER_PROGRESS {\"placed\": 3, \"total\": 10}\n"),
        Some((ScatterLine::Progress, "{\"placed\": 3, \"total\": 10}".to_string()))
    );
    assert_eq!(
        scatter_line("SCATTER_DONE {\"out\": \"/x.stl\"}"),
        Some((ScatterLine::Done, "{\"out\": \"/x.stl\"}".to_string()))
    );
    assert_eq!(
        scatter_line("SCATTER_FAILED {\"reason\": \"no\"}"),
        Some((ScatterLine::Failed, "{\"reason\": \"no\"}".to_string()))
    );
}

#[test]
fn garbage_and_blender_noise_frame_as_nothing() {
    assert_eq!(scatter_line(""), None);
    assert_eq!(scatter_line("   "), None);
    assert_eq!(scatter_line("SCATTER_START extra-garbage"), None);
    assert_eq!(scatter_line("random log line from Blender"), None);
    assert_eq!(scatter_line("SCATTER_PROGRESS"), None);
    assert!(default_align_to_surface());
}

#[test]
fn claim_active_job_rejects_a_second_claim_while_one_is_active() {
    let mut registry = plinth::scatter::ScatterSlot::new();
    registry.claim_active_job("job-a").expect("first claim should succeed");

    let err = registry
        .claim_active_job("job-b")
        .expect_err("second claim while job-a is active must be rejected");
    assert!(matches!(err, plinth::error::AppError::InvalidInput(_)));

    registry.release_active_job("job-a");
    registry.claim_active_job("job-b").expect("claim after release should succeed");
}

#[test]
fn release_active_job_only_clears_its_own_claim() {
    let mut registry = plinth::scatter::ScatterSlot::new();
    registry.claim_active_job("job-a").unwrap();

    // Releasing a different job id must not clobber job-a's claim.
    registry.release_active_job("job-b");
    assert!(registry.is_active());

    registry.release_active_job("job-a");
    assert!(!registry.is_active());
}
