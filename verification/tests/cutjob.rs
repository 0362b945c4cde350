use plinth::cutjob::{cut_line, landscape_line, merge_tail, CutLine, CutRun, LandscapeLine};

#[test]
fn parse_token_frames_every_token_type() {
    assert_eq!(cut_line("VALIDATING"), Some((CutLine::Validating, String::new())));
    assert_eq!(
        cut_line(r#"VALIDATED {"non_manifold_edges": 0}"#),
        Some((CutLine::Validated, r#"{"non_manifold_edges": 0}"#.to_string()))
    );
    assert_eq!(
        cut_line(r#"VALIDATION_FAILED {"verts": 8}"#).map(|t| t.0),
        Some(CutLine::ValidationFailed)
    );
    assert_eq!(cut_line(r#"CUT_START {"index": 0}"#).map(|t| t.0), Some(CutLine::CutStart));
    assert_eq!(cut_line(r#" CUT_DONE {"index": 0} "#).map(|t| t.1), Some(r#"{"index": 0}"#.to_string()));
    assert_eq!(cut_line(r#"CUT_FAILED {"index": 1}"#).map(|t| t.0), Some(CutLine::CutFailed));
    assert_eq!(cut_line(r#"JOB_DONE {"total": 2, "ok": 1}"#).map(|t| t.0), Some(CutLine::JobDone));
}

#[test]
fn parse_token_rejects_garbage_and_blender_noise() {
    assert_eq!(cut_line(""), None);
    assert_eq!(cut_line("VALIDATING extra"), None);
    assert_eq!(cut_line("Blender 4.2 (hash abc)"), None);
    assert_eq!(cut_line("CUT_DONE"), None);
    assert_eq!(landscape_line("GENERATED {}").map(|t| t.0), Some(LandscapeLine::Generated));
    assert_eq!(landscape_line("GENERATING {}").map(|t| t.0), Some(LandscapeLine::Generating));
    assert_eq!(landscape_line("GENERATION_FAILED {}").map(|t| t.0), Some(LandscapeLine::GenerationFailed));
    assert_eq!(landscape_line("noise"), None);
}

#[test]
fn a_run_counts_cuts_and_stops_on_failed_validation() {
    let mut run = CutRun::new();
    assert!(run.observe(CutLine::Validating, 0));
    assert!(run.observe(CutLine::CutDone, 0));
    assert!(run.observe(CutLine::CutDone, 0));
    assert_eq!(run.outcome(), 2);
    assert!(run.observe(CutLine::JobDone, 1));
    assert_eq!(run.outcome(), 1, "the script's own summary wins");
    assert!(!run.observe(CutLine::ValidationFailed, 0));
    assert_eq!(merge_tail("out".into(), String::new()), "out");
    assert_eq!(merge_tail("out".into(), "err".into()), "out\nerr");
}
