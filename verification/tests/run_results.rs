use plinth::cutjob::{cut_job_result, cut_run_result, tally_cut_tokens, CutLine, CutRun, CutRunEnd};
use plinth::error::AppError;
use plinth::jobs::{JobKind, JobRegistry};
use plinth::storage::convert_to_relative_paths;

#[test]
fn a_failed_validation_stops_the_tally() {
    let tokens = vec![
        (CutLine::Validating, 0),
        (CutLine::ValidationFailed, 0),
        (CutLine::CutDone, 0),
    ];
    let (run, delivered) = tally_cut_tokens(&tokens);
    assert_eq!(delivered, 2);
    assert_eq!(run.local_ok, 0);
    assert_eq!(run.job_done_ok, None);
}

#[test]
fn the_summary_count_wins_over_the_local_tally() {
    let tokens = vec![
        (CutLine::CutDone, 0),
        (CutLine::CutDone, 0),
        (CutLine::CutFailed, 0),
        (CutLine::JobDone, 1),
    ];
    let (run, delivered) = tally_cut_tokens(&tokens);
    assert_eq!(delivered, 4);
    assert_eq!(run.local_ok, 2);
    assert_eq!(run.job_done_ok, Some(1));
    let r = cut_job_result(&tokens, CutRunEnd::Exited(true, "exit status: 0".to_string()), String::new(), String::new());
    assert_eq!(r.unwrap(), 1);
    let only_cuts = vec![(CutLine::CutDone, 0), (CutLine::CutDone, 0)];
    let r = cut_job_result(&only_cuts, CutRunEnd::Exited(true, String::new()), String::new(), String::new());
    assert_eq!(r.unwrap(), 2);
}

#[test]
fn each_ending_maps_to_its_error() {
    let run = CutRun { local_ok: 3, job_done_ok: None };
    match cut_run_result(run, CutRunEnd::SpawnFailed("no such file".to_string()), "o".to_string(), "e".to_string()) {
        Err((AppError::IoError(m), tail)) => {
            assert_eq!(m, "Failed to launch Blender: no such file");
            assert_eq!(tail, "");
        }
        other => panic!("{:?}", other),
    }
    match cut_run_result(run, CutRunEnd::StdoutCaptureFailed, "o".to_string(), String::new()) {
        Err((AppError::IoError(m), tail)) => {
            assert_eq!(m, "Failed to capture Blender stdout");
            assert_eq!(tail, "");
        }
        other => panic!("{:?}", other),
    }
    match cut_run_result(run, CutRunEnd::ReadFailed("broken pipe".to_string()), "out".to_string(), "err".to_string()) {
        Err((AppError::IoError(m), tail)) => {
            assert_eq!(m, "Failed reading Blender output: broken pipe");
            assert_eq!(tail, "out\nerr");
        }
        other => panic!("{:?}", other),
    }
    match cut_run_result(run, CutRunEnd::WaitFailed("gone".to_string()), "out".to_string(), String::new()) {
        Err((AppError::IoError(m), tail)) => {
            assert_eq!(m, "Failed waiting for Blender: gone");
            assert_eq!(tail, "out");
        }
        other => panic!("{:?}", other),
    }
    match cut_run_result(run, CutRunEnd::Cancelled, "out".to_string(), String::new()) {
        Err((AppError::UserCancelled(m), _)) => assert_eq!(m, "Base cut job cancelled"),
        other => panic!("{:?}", other),
    }
    match cut_run_result(run, CutRunEnd::AbortedByCaller, "VALIDATION_FAILED {}".to_string(), String::new()) {
        Err((AppError::FileProcessingError(m), tail)) => {
            assert_eq!(m, "Landscape failed validation");
            assert_eq!(tail, "VALIDATION_FAILED {}");
        }
        other => panic!("{:?}", other),
    }
    match cut_run_result(run, CutRunEnd::Exited(false, "exit status: 1".to_string()), "a".to_string(), "b".to_string()) {
        Err((AppError::FileProcessingError(m), tail)) => {
            assert_eq!(m, "Blender exited with exit status: 1");
            assert_eq!(tail, "a\nb");
        }
        other => panic!("{:?}", other),
    }
    assert_eq!(cut_run_result(run, CutRunEnd::Exited(true, String::new()), String::new(), String::new()).unwrap(), 3);
}

#[test]
fn a_path_outside_the_base_fails_the_batch() {
    let paths = vec!["/stage/a.stl".to_string(), "/elsewhere/b.stl".to_string()];
    match convert_to_relative_paths(&paths, "/stage") {
        Err(AppError::IoError(m)) => assert_eq!(
            m,
            "Failed to convert path to relative: Path '/elsewhere/b.stl' is not within base directory '/stage'"
        ),
        other => panic!("{:?}", other),
    }
}

#[test]
fn a_claimed_id_is_the_prefix_and_a_hyphenated_uuid() {
    let mut registry = JobRegistry::new();
    let permit = registry.claim(JobKind::Duplicate).unwrap();
    let id = permit.id().to_string();
    assert!(id.starts_with("dup:"));
    let token = &id["dup:".len()..];
    assert_eq!(token.len(), 36);
    for (i, c) in token.chars().enumerate() {
        if i == 8 || i == 13 || i == 18 || i == 23 {
            assert_eq!(c, '-');
        } else {
            assert!(c.is_ascii_hexdigit() && !c.is_ascii_uppercase());
        }
    }
    // a conflicting claim is refused and leaves the holder registered
    assert!(registry.claim(JobKind::Scan).is_err());
    assert_eq!(registry.len(), 1);
}
