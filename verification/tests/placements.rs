use plinth::basecutter::{
    is_safe_filename_segment, name_problem_error, placement_label, validate_placements,
    PlacementProblem,
};

fn names(list: &[Option<&str>]) -> Vec<Option<String>> {
    list.iter().map(|n| n.map(str::to_string)).collect()
}

#[test]
fn accepts_a_normal_placement_set() {
    // round32, square25 and an unnamed 40mm circle all keep a usable footprint
    let placements = names(&[Some("round32"), Some("square25"), None]);
    assert!(validate_placements(&placements, &vec![false, false, false]).is_ok());
}

#[test]
fn rejects_a_footprint_the_taper_eats_entirely() {
    // a 2mm circle under the default plinth derives to a degenerate footprint
    let placements = names(&[Some("tiny")]);
    let err = validate_placements(&placements, &vec![true])
        .expect_err("a near-zero cut footprint must be rejected");
    assert_eq!(err, PlacementProblem::DegenerateFootprint { index: 0 });
    assert_eq!(placement_label(Some("tiny"), 0), "'tiny'");
}

#[test]
fn rejects_a_footprint_the_taper_eats_entirely_using_the_ordinal_when_unnamed() {
    let placements = names(&[None]);
    let err = validate_placements(&placements, &vec![true])
        .expect_err("must still be rejected without a name");
    assert_eq!(err, PlacementProblem::DegenerateFootprint { index: 0 });
    assert!(placement_label(None, 0).contains("placement 1"));
}

#[test]
fn rejects_duplicate_placement_names() {
    let placements = names(&[Some("round32"), Some("round32")]);
    let err = validate_placements(&placements, &vec![false, false])
        .expect_err("duplicate names must be rejected");
    assert_eq!(err, PlacementProblem::DuplicateName { index: 1 });
    let msg = name_problem_error("'round32'", "round32", true).message();
    assert!(msg.contains("round32"), "error should name the duplicate: {msg}");
}

#[test]
fn rejects_placement_names_that_escape_out_dir() {
    for bad in ["../evil", "a/b", "a\\b", "C:evil", "/etc/passwd", "..", "."] {
        let placements = names(&[Some(bad)]);
        let err = validate_placements(&placements, &vec![false])
            .expect_err(&format!("'{bad}' must be rejected as a placement name"));
        assert_eq!(err, PlacementProblem::UnsafeName { index: 0 });
        let msg = name_problem_error(&placement_label(Some(bad), 0), bad, false).message();
        assert!(
            msg.contains("not a valid output filename"),
            "error should explain why '{bad}' was rejected: {msg}"
        );
    }
}

#[test]
fn accepts_an_ordinary_placement_name() {
    let placements = names(&[Some("round32")]);
    assert!(validate_placements(&placements, &vec![false]).is_ok());
}

#[test]
fn allows_multiple_unnamed_placements() {
    let placements = names(&[None, None]);
    assert!(validate_placements(&placements, &vec![false, false]).is_ok());
}

#[test]
fn reserved_device_names_are_unsafe_in_any_case() {
    assert!(!is_safe_filename_segment("CON"));
    assert!(!is_safe_filename_segment("nul.stl"));
    assert!(!is_safe_filename_segment("com1"));
    assert!(is_safe_filename_segment("console"));
    assert!(!is_safe_filename_segment("   "));
    assert!(!is_safe_filename_segment("a|b"));
}

#[test]
fn the_first_problem_in_order_is_reported() {
    let placements = names(&[Some("ok"), Some("a/b"), Some("ok")]);
    assert_eq!(
        validate_placements(&placements, &vec![false, false, true]),
        Err(PlacementProblem::UnsafeName { index: 1 })
    );
}
