use plinth::basecutter::export_cuts_check;
use plinth::error::AppError;
use plinth::manifest::{manifest_component, manifest_model, manifest_release};
use plinth::models::{FilePose, StlModel};
use plinth::storage::ArchiveFileEntry;

fn strings(v: &[&str]) -> Vec<String> {
    v.iter().map(|s| s.to_string()).collect()
}

#[test]
fn export_refusals_come_in_order() {
    let roots = strings(&["/cat/"]);
    let ok = strings(&["/cuts/a.stl", "/cuts/b.STL"]);
    match export_cuts_check(&Vec::new(), "/cat", "Bases", &roots, true, &Vec::new()) {
        Err(AppError::InvalidInput(m)) => assert_eq!(m, "No cut STLs to export"),
        other => panic!("{:?}", other),
    }
    match export_cuts_check(&ok, "/cat", "   ", &roots, true, &vec![true, true]) {
        Err(AppError::InvalidInput(m)) => assert_eq!(m, "A group name is required"),
        other => panic!("{:?}", other),
    }
    match export_cuts_check(&ok, "/other", "Bases", &roots, true, &vec![true, true]) {
        Err(AppError::InvalidInput(m)) => assert_eq!(
            m,
            "'/other' is not a configured catalog folder — add it in Settings first"
        ),
        other => panic!("{:?}", other),
    }
    match export_cuts_check(&ok, "/cat//", "Bases", &roots, false, &vec![true, true]) {
        Err(AppError::NotFoundError(m)) => assert_eq!(m, "Catalog folder not found: /cat"),
        other => panic!("{:?}", other),
    }
    let twice = strings(&["/cuts/a.stl", "/cuts/b.stl", "/cuts/a.stl"]);
    match export_cuts_check(&twice, "/cat", "Bases", &roots, true, &vec![true, true, true]) {
        Err(AppError::InvalidInput(m)) => assert_eq!(m, "'/cuts/a.stl' is listed twice in the export"),
        other => panic!("{:?}", other),
    }
    match export_cuts_check(&ok, "/cat", "Bases", &roots, true, &vec![true, false]) {
        Err(AppError::NotFoundError(m)) => assert_eq!(m, "Cut STL not found: /cuts/b.STL"),
        other => panic!("{:?}", other),
    }
    let obj = strings(&["/cuts/a.obj"]);
    match export_cuts_check(&obj, "/cat", "Bases", &roots, true, &vec![true]) {
        Err(AppError::InvalidInput(m)) => assert_eq!(m, "Not an STL file: /cuts/a.obj"),
        other => panic!("{:?}", other),
    }
    assert!(export_cuts_check(&ok, "/cat", "Bases", &roots, true, &vec![true, true]).is_ok());
}

fn model(designer: Option<&str>, release_name: Option<&str>, release_date: Option<&str>) -> StlModel {
    StlModel {
        id: Some("7d1c".to_string()),
        name: "Bog Hag".to_string(),
        description: None,
        tags: strings(&["swamp"]),
        images: strings(&["hag.png"]),
        model_files: strings(&["hag.stl"]),
        group: Some("Bog Hag".to_string()),
        variant: None,
        pose: None,
        scale: None,
        support_status: Some("supported".to_string()),
        release_date: release_date.map(String::from),
        designer: designer.map(String::from),
        sculptor: None,
        release_name: release_name.map(String::from),
        base_round_mm: Some(32),
        base_square_mm: None,
        file_poses: vec![FilePose {
            name: "hag.stl".to_string(),
            variant: None,
            pose: Some("A".to_string()),
            support_status: None,
        }],
    }
}

fn entries() -> Vec<ArchiveFileEntry> {
    vec![ArchiveFileEntry {
        name: "Bog Hag/hag.stl".to_string(),
        checksum: "blake3:aa".to_string(),
        size_bytes: 12,
        stored: false,
    }]
}

#[test]
fn a_model_borrows_what_it_omits_from_the_release() {
    let names = vec![Some("Bog Hag/hag.stl".to_string())];
    let m = manifest_model(
        &model(None, None, None),
        &names,
        Some("Bog Hag/hag.png".to_string()),
        &entries(),
        "Bestiarum",
        "Dread Swamp",
        "2026-07",
    );
    assert_eq!(m.designer.as_deref(), Some("Bestiarum"));
    assert_eq!(m.release_name.as_deref(), Some("Dread Swamp"));
    assert_eq!(m.release_date.as_deref(), Some("2026-07"));
    assert_eq!(m.preview.as_deref(), Some("Bog Hag/hag.png"));
    assert_eq!(m.base_round_mm, Some(32));
    assert_eq!(m.files.len(), 1);
    assert_eq!(m.files[0].checksum, "blake3:aa");
    assert_eq!(m.files[0].pose.as_deref(), Some("A"));

    let own = manifest_model(
        &model(Some("Other"), Some("Own Release"), Some("2025-01")),
        &names,
        None,
        &entries(),
        "Bestiarum",
        "Dread Swamp",
        "2026-07",
    );
    assert_eq!(own.designer.as_deref(), Some("Other"));
    assert_eq!(own.release_name.as_deref(), Some("Own Release"));
    assert_eq!(own.release_date.as_deref(), Some("2025-01"));
}

#[test]
fn a_component_is_named_by_its_archive_and_flags_dedup() {
    let c = manifest_component("Heroes", Some("Heroes.zip".to_string()), "blake3:bb".to_string(), 99, &entries(), Vec::new());
    assert_eq!(c.archive, "Heroes.zip");
    assert!(c.dedup);
    let c = manifest_component("Heroes", None, "blake3:bb".to_string(), 99, &Vec::new(), Vec::new());
    assert_eq!(c.archive, "Heroes");
    assert!(!c.dedup);
    let r = manifest_release("Dread Swamp", "Bestiarum", "5/2026");
    assert_eq!(r.date, "2026-05");
}

#[test]
fn export_rejects_a_root_not_in_catalog_roots() {
    let stl = "/tmp/unconfigured_src/round32.stl".to_string();
    let err = export_cuts_check(&vec![stl], "/tmp/unconfigured", "Group", &Vec::new(), true, &vec![true])
        .expect_err("an unconfigured root must be rejected");
    assert!(
        err.message().contains("not a configured catalog folder"),
        "error should explain why: {:?}",
        err
    );
}

#[test]
fn export_rejects_a_missing_source() {
    let root = "/tmp/missing_src";
    let roots = vec![root.to_string()];
    let missing = format!("{}/nope.stl", root);
    let err = export_cuts_check(&vec![missing.clone()], root, "Group", &roots, true, &vec![false])
        .expect_err("a missing source must be rejected");
    assert!(err.message().contains(&missing), "error should name the missing source: {:?}", err);
}

#[test]
fn export_rejects_the_same_path_listed_twice() {
    let root = "/tmp/dup_input";
    let stl = "/tmp/dup_input_src/round32.stl".to_string();
    let roots = vec![root.to_string()];
    let err = export_cuts_check(&vec![stl.clone(), stl], root, "Group", &roots, true, &vec![true, true])
        .expect_err("the same source listed twice must be rejected");
    assert!(err.message().contains("listed twice"), "error should explain why: {:?}", err);
}
