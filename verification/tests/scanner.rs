use plinth::identity::{
    alnum_key, date_from_segment, is_generic_segment, pose_from_segment, prettify_segment,
    split_trailing_pose, support_from_filename, support_from_segment,
};

#[test]
fn support_reads_through_slicer_format_labels() {
    assert_eq!(support_from_segment("supported"), Some("supported"));
    assert_eq!(support_from_segment("pre-supported"), Some("supported"));
    assert_eq!(support_from_segment("stl supported"), Some("supported"));
    assert_eq!(support_from_segment("lys_presupported"), Some("supported"));
    assert_eq!(support_from_segment("unsupported stl"), Some("unsupported"));
    assert_eq!(support_from_segment("stl"), None);
    assert_eq!(support_from_segment("supported dragon"), None);
}

#[test]
fn support_read_from_stl_file_names() {
    assert_eq!(
        support_from_filename("CopperDragon_Body_Supported.stl"),
        Some("supported")
    );
    assert_eq!(
        support_from_filename("gob_a_UNSUPPORTED.stl"),
        Some("unsupported"),
        "unsupported wins even though it contains 'supported'"
    );
    assert_eq!(
        support_from_filename("presupported-torso.stl"),
        Some("supported")
    );
    assert_eq!(support_from_filename("dryad_dragon_head.stl"), None);
}

#[test]
fn date_from_segment_handles_both_orders_and_junk() {
    assert_eq!(
        date_from_segment("dungeon_classics-05-2026").as_deref(),
        Some("2026-05")
    );
    assert_eq!(
        date_from_segment("2025-11 heroes").as_deref(),
        Some("2025-11")
    );
    assert_eq!(date_from_segment("warhammer 40k"), None);
    assert_eq!(date_from_segment("release-13-2026"), None, "month 13");
    assert_eq!(date_from_segment("plain name"), None);
}

#[test]
fn the_rightmost_plausible_date_pair_wins() {
    assert_eq!(date_from_segment("01-2020 then 2024-03").as_deref(), Some("2024-03"));
    assert_eq!(date_from_segment("05-1899"), None);
}

#[test]
fn pose_markers_and_names() {
    assert_eq!(pose_from_segment("pose 2").as_deref(), Some("2"));
    assert_eq!(pose_from_segment("Pose-b").as_deref(), Some("B"));
    assert_eq!(pose_from_segment(" a ").as_deref(), Some("A"));
    assert_eq!(pose_from_segment("B2").as_deref(), Some("B2"));
    assert_eq!(pose_from_segment("on_a_horse").as_deref(), Some("on a horse"));
    assert_eq!(pose_from_segment("Standing").as_deref(), Some("standing"));
    assert_eq!(pose_from_segment("minotaur"), None);
    assert_eq!(pose_from_segment("pose"), None);
    assert_eq!(pose_from_segment("abc"), None);
}

#[test]
fn packaging_words_are_generic() {
    assert!(is_generic_segment("STLs"));
    assert!(is_generic_segment(" files "));
    assert!(is_generic_segment("unsupported"));
    assert!(is_generic_segment("A"));
    assert!(!is_generic_segment("galeb duhr"));
}

#[test]
fn trailing_pose_markers_peel_off_only_behind_a_real_name() {
    assert_eq!(
        split_trailing_pose("galeb duhr A"),
        ("galeb duhr".to_string(), Some("A".to_string()))
    );
    assert_eq!(
        split_trailing_pose("galeb_duhr_B2"),
        ("galeb duhr".to_string(), Some("B2".to_string()))
    );
    assert_eq!(split_trailing_pose("warhammer 40k"), ("warhammer 40k".to_string(), None));
    assert_eq!(split_trailing_pose("st b"), ("st b".to_string(), None));
    assert_eq!(split_trailing_pose("knight"), ("knight".to_string(), None));
}

#[test]
fn prettify_swaps_underscores_and_collapses_space() {
    assert_eq!(prettify_segment("galeb__duhr  A "), "galeb duhr A");
    assert_eq!(prettify_segment("dread-swamp"), "dread-swamp");
    assert_eq!(prettify_segment("   "), "");
}

#[test]
fn alnum_key_ignores_punctuation_and_case() {
    assert_eq!(alnum_key("Dragon Trapper's Lodge"), "dragontrapperslodge");
    assert_eq!(alnum_key("dragon_trappers_lodge"), "dragontrapperslodge");
}
