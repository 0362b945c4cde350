use plinth::manifest::{archive_name, component_dedup, manifest_files};
use plinth::models::FilePose;
use plinth::storage::ArchiveFileEntry;

fn entry(name: &str, checksum: &str, size: u64, stored: bool) -> ArchiveFileEntry {
    ArchiveFileEntry { name: name.into(), checksum: checksum.into(), size_bytes: size, stored }
}

#[test]
fn archive_names_always_use_forward_slashes() {
    assert_eq!(archive_name("galeb duhr/body.stl"), "galeb duhr/body.stl");
    assert_eq!(archive_name("a//b/./c.stl"), "a/b/c.stl");
    assert_eq!(archive_name("body.stl"), "body.stl");
}

#[test]
fn model_files_take_checksums_and_poses_from_the_archive() {
    let entries = vec![
        entry("galeb/body.stl", "blake3:aa", 10, true),
        entry("galeb/arm.stl", "blake3:bb", 4, false),
    ];
    let poses = vec![FilePose {
        name: "arm.stl".into(),
        variant: None,
        pose: Some("A".into()),
        support_status: Some("supported".into()),
    }];
    let names = vec![
        Some("galeb/body.stl".to_string()),
        None,
        Some("galeb/missing.stl".to_string()),
        Some("galeb/arm.stl".to_string()),
    ];
    let files = manifest_files(&names, &entries, &poses);
    assert_eq!(files.len(), 2);
    assert_eq!(files[0].name, "galeb/body.stl");
    assert_eq!(files[0].checksum, "blake3:aa");
    assert_eq!(files[0].size_bytes, 10);
    assert_eq!(files[0].pose, None);
    assert_eq!(files[1].name, "galeb/arm.stl");
    assert_eq!(files[1].pose.as_deref(), Some("A"));
    assert_eq!(files[1].support_status.as_deref(), Some("supported"));
    assert!(component_dedup(&entries));
    assert!(!component_dedup(&entries[..1].to_vec()));
}
