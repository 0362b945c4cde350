use plinth::basecutter::civil_from_unix_seconds;

#[test]
fn civil_from_unix_seconds_matches_known_dates() {
    assert_eq!(civil_from_unix_seconds(0), (1970, 1, 1));
    assert_eq!(civil_from_unix_seconds(951_782_400), (2000, 2, 29));
    assert_eq!(civil_from_unix_seconds(1_709_164_800), (2024, 2, 29));
    assert_eq!(civil_from_unix_seconds(1_784_073_600), (2026, 7, 15));
    assert_eq!(civil_from_unix_seconds(1_767_225_600), (2026, 1, 1));
    assert_eq!(civil_from_unix_seconds(946_598_400), (1999, 12, 31));
}

#[test]
fn a_cut_lands_in_the_first_folder_no_other_cut_holds() {
    use_cut_dest();
}

fn use_cut_dest() {
    assert_eq!(plinth::basecutter::cut_dest_dir("round32", &vec![]), "round32");
    assert_eq!(plinth::basecutter::cut_dest_dir("round32", &vec![false, true]), "round32");
    assert_eq!(plinth::basecutter::cut_dest_dir("round32", &vec![true, true]), "round32 3");
    assert_eq!(plinth::basecutter::cut_dest_dir("round32", &vec![true, false]), "round32 2");
    assert_eq!(plinth::basecutter::cut_stem("oval", 1), "oval");
    assert_eq!(
        plinth::basecutter::export_date((2026, 5)),
        "2026-05"
    );
}

#[test]
fn this_month_is_read_off_the_clock() {
    let (year, month) = plinth::basecutter::current_year_month_utc();
    assert!(year >= 2024, "the clock's year, not the epoch's: {year}");
    assert!((1..=12).contains(&month));
}

#[test]
fn export_dates_format_any_year_as_the_standard_width_does() {
    assert_eq!(plinth::basecutter::export_date((2026, 7)), format!("{:04}-{:02}", 2026, 7));
    assert_eq!(plinth::basecutter::export_date((987, 1)), format!("{:04}-{:02}", 987, 1));
    assert_eq!(plinth::basecutter::export_date((12345, 12)), format!("{:04}-{:02}", 12345, 12));
    assert_eq!(plinth::basecutter::export_date((-5, 3)), format!("{:04}-{:02}", -5i64, 3));
    assert_eq!(plinth::basecutter::export_date((i64::MIN, 100)), format!("{:04}-{:02}", i64::MIN, 100));
}

#[test]
fn a_degenerate_footprint_is_refused_with_its_dimensions() {
    match plinth::basecutter::degenerate_footprint_error("'round32'", "0.40", "0.5") {
        plinth::error::AppError::InvalidInput(m) => assert_eq!(
            m,
            "'round32': the plinth taper/height eats the whole footprint (derived cut dimension 0.40mm is at or under the 0.5mm minimum)"
        ),
        other => panic!("{:?}", other),
    }
}
