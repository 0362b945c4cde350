use plinth::storage::{
    belongs_in_3pk, calculate_total_size, clean_name, convert_to_relative_path,
    convert_to_relative_paths, destination_subfolder, get_extension_for_compression_type,
    rename_image, repeated_sizes, ArchiveDedup, CompressionProgress,
};

#[test]
fn images_are_named_after_their_model() {
    assert_eq!(rename_image("bog_hag", "/src/Render.PNG", 0), "bog_hag-main.PNG");
    assert_eq!(rename_image("bog_hag", "/src/detail.jpg", 2), "bog_hag-detail_2.jpg");
    assert_eq!(rename_image("bog_hag", "/src/noext", 1), "bog_hag-detail_1.");
}

#[test]
fn staged_files_land_in_their_subfolder() {
    assert_eq!(destination_subfolder("/s/model.chitubox"), Some("chitubox"));
    assert_eq!(destination_subfolder("/s/model.LYS"), Some("lychee"));
    assert_eq!(destination_subfolder("/s/knight (supported).stl"), Some("supported"));
    assert_eq!(destination_subfolder("/s/dragon sup.stl"), Some("supported"));
    assert_eq!(destination_subfolder("/s/superb.stl"), None);
    assert_eq!(destination_subfolder("/s/readme.txt"), None);
}

#[test]
fn relative_paths_are_component_aware() {
    assert_eq!(convert_to_relative_path("/x/Scratch/a/b.stl", "/x/Scratch").unwrap(), "a/b.stl");
    let err = convert_to_relative_path("/x/ScratchOld/b.stl", "/x/Scratch").unwrap_err();
    assert_eq!(
        err.message(),
        "Path '/x/ScratchOld/b.stl' is not within base directory '/x/Scratch'"
    );
    let paths = vec!["/x/Scratch/a".to_string(), "/y/b".to_string()];
    let err = convert_to_relative_paths(&paths, "/x/Scratch").unwrap_err();
    assert!(err.message().starts_with("Failed to convert path to relative: "));
    let ok = convert_to_relative_paths(&paths[..1], "/x/Scratch").unwrap();
    assert_eq!(ok, vec!["a".to_string()]);
}

#[test]
fn names_sizes_and_archive_membership() {
    assert_eq!(clean_name("  Bog Hag Mk 2 "), "bog_hag_mk_2");
    assert_eq!(calculate_total_size((10, 2), (3, 1), (7, 4)), (20, 7));
    assert!(belongs_in_3pk("release.json"));
    assert!(belongs_in_3pk("cover.png"));
    assert!(!belongs_in_3pk("cover.PNG"));
    assert!(!belongs_in_3pk("body.stl"));
    assert_eq!(get_extension_for_compression_type(), "zip");
}

#[test]
fn archives_store_each_content_once() {
    assert_eq!(repeated_sizes(&vec![10, 20, 10, 30]), vec![true, false, true, false]);
    let mut dedup = ArchiveDedup::new();
    assert!(dedup.first_copy("blake3:aa"));
    assert!(dedup.first_copy("blake3:bb"));
    assert!(!dedup.first_copy("blake3:aa"));
}

#[test]
fn compression_progress_reports_percentages() {
    let mut p = CompressionProgress::new(4, 200);
    assert_eq!(p.advance(50, false), Some((25, 25)));
    assert_eq!(p.advance(100, false), Some((75, 50)));
    assert_eq!(p.advance(10, true), None);
    assert_eq!(p.processed_files, 2);
}
