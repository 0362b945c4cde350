use plinth::scanner::{
    assemble_scan, classify_entry, entry_extension, is_hidden, new_scanned_dir, note_image,
    note_model_file, release_from_sidecar, root_not_a_directory, scan_progress_due, Ancestor,
    EntryKind, ModelMeta, ReleaseInfo, ScannedDir,
};

fn ancestry(dir: &str, root: &str) -> (Vec<Ancestor>, Option<usize>) {
    let mut out = Vec::new();
    let mut current = dir.to_string();
    loop {
        let name = current.rsplit('/').next().filter(|n| !n.is_empty()).map(str::to_string);
        out.push(Ancestor { path: current.clone(), name });
        if current == "/" {
            break;
        }
        match current.rfind('/') {
            Some(0) => current = "/".to_string(),
            Some(i) => current = current[..i].to_string(),
            None => break,
        }
    }
    let root_at = out.iter().position(|a| a.path == root);
    (out, root_at)
}

fn dir(path: &str, root: &str) -> ScannedDir {
    let (ancestors, root_at) = ancestry(path, root);
    new_scanned_dir(path.to_string(), ancestors, root_at)
}

#[test]
fn scans_metadata_and_heuristic_models() {
    let root = "/r";
    let mut loose = dir("/r/loose", root);
    note_model_file(&mut loose, "dragon.stl", "stl", 17);
    let mut newt = dir("/r/release/newt", root);
    note_model_file(&mut newt, "newt.stl", "stl", 10);
    note_image(&mut newt, "/r/release/newt/newt-main.png".to_string());
    newt.metadata = Some(ModelMeta {
        name: "Giant Newt".to_string(),
        description: Some("big".to_string()),
        id: None,
        tags: vec!["amphibian".to_string()],
        preview: Some("/r/release/newt/newt-main.png".to_string()),
    });
    let dirs = vec![loose, newt];
    let releases = vec![release_from_sidecar(
        "/r/release".to_string(),
        "Critterfolk".to_string(),
        "DTL".to_string(),
    )];

    let outcome = assemble_scan(Vec::new(), &dirs, &releases, &Vec::new(), '/');
    assert_eq!(outcome.models.len(), 2);

    let newt = outcome.models.iter().find(|m| m.name == "Giant Newt").expect("metadata model");
    assert_eq!(newt.source, "metadata");
    assert_eq!(newt.release_name.as_deref(), Some("Critterfolk"));
    assert_eq!(newt.designer.as_deref(), Some("DTL"));
    assert!(newt.preview_path.as_deref().unwrap().ends_with("newt-main.png"));
    assert_eq!(newt.description.as_deref(), Some("big"));
    assert_eq!(newt.group_name.as_deref(), Some("Giant Newt"));

    let dragon = outcome.models.iter().find(|m| m.name == "loose").expect("heuristic model");
    assert_eq!(dragon.source, "heuristic");
    assert_eq!(dragon.file_count, 1);
    assert_eq!(dragon.total_size_bytes, 17);
    assert_eq!(dragon.release_name, None);

    assert_eq!(
        outcome.metadata_tags,
        vec![("/r/release/newt".to_string(), "amphibian".to_string())]
    );
}

#[test]
fn heuristic_variants_borrow_the_render_at_their_model_root() {
    let root = "/r";
    let mut goblin = dir("/r/goblin", root);
    note_image(&mut goblin, "/r/goblin/goblin-render.png".to_string());
    let mut sup = dir("/r/goblin/supported", root);
    note_model_file(&mut sup, "gob_a.stl", "stl", 5);
    let mut unsup = dir("/r/goblin/unsupported", root);
    note_model_file(&mut unsup, "gob_a.stl", "stl", 5);
    let dirs = vec![goblin, sup, unsup];

    let outcome = assemble_scan(Vec::new(), &dirs, &Vec::new(), &Vec::new(), '/');
    assert_eq!(outcome.models.len(), 2);
    for model in &outcome.models {
        assert!(
            model.preview_path.as_deref().unwrap_or_default().ends_with("goblin-render.png"),
            "variant {} should borrow the root render, got {:?}",
            model.dir_path,
            model.preview_path
        );
        assert_eq!(model.name, "goblin");
    }
    assert_eq!(outcome.models[0].support_status.as_deref(), Some("supported"));
    assert_eq!(outcome.models[1].support_status.as_deref(), Some("unsupported"));
}

#[test]
fn a_studio_folder_names_the_designer_when_no_release_does() {
    let mut gob = dir("/r/dragon_trappers_lodge/goblin", "/r");
    note_model_file(&mut gob, "gob.stl", "stl", 5);
    let designers = vec!["Dragon Trapper's Lodge".to_string()];
    let outcome = assemble_scan(Vec::new(), &vec![gob], &Vec::new(), &designers, '/');
    assert_eq!(outcome.models[0].designer.as_deref(), Some("Dragon Trapper's Lodge"));
}

#[test]
fn presupported_formats_and_file_names_set_the_support_status() {
    let mut lys = dir("/r/dragon", "/r");
    note_model_file(&mut lys, "dragon.lys", "lys", 5);
    assert!(lys.has_presupported_format);
    let mut named = dir("/r/wyrm", "/r");
    note_model_file(&mut named, "wyrm_Supported.stl", "stl", 5);
    note_model_file(&mut named, "wyrm_unsupported.stl", "stl", 6);
    assert_eq!(named.filename_support.as_deref(), Some("supported"), "the first hint is kept");
    assert_eq!(named.model_files, 2);
    assert_eq!(named.model_bytes, 11);
    let outcome = assemble_scan(Vec::new(), &vec![lys, named], &Vec::new(), &Vec::new(), '/');
    assert_eq!(outcome.models[0].support_status.as_deref(), Some("supported"));
    assert_eq!(outcome.models[1].support_status.as_deref(), Some("supported"));
}

#[test]
fn directories_without_model_files_are_not_models() {
    let mut images = dir("/r/renders", "/r");
    note_image(&mut images, "/r/renders/a.png".to_string());
    note_image(&mut images, "/r/renders/b.png".to_string());
    assert_eq!(images.first_image.as_deref(), Some("/r/renders/a.png"));
    let outcome = assemble_scan(Vec::new(), &vec![images], &Vec::new(), &Vec::new(), '/');
    assert!(outcome.models.is_empty());
}

#[test]
fn entries_are_classified_by_extension_then_sidecar_name() {
    assert_eq!(classify_entry("a.stl", "stl"), EntryKind::ModelFile);
    assert_eq!(classify_entry("a.gcode", "gcode"), EntryKind::ModelFile);
    assert_eq!(classify_entry("a.webp", "webp"), EntryKind::Image);
    assert_eq!(classify_entry("model.json", "json"), EntryKind::ModelSidecar);
    assert_eq!(classify_entry("release.json", "json"), EntryKind::ReleaseSidecar);
    assert_eq!(classify_entry("notes.txt", "txt"), EntryKind::Other);
    assert_eq!(entry_extension("/r/a/Dragon.STL"), "stl");
    assert_eq!(entry_extension("/r/a/README"), "");
}

#[test]
fn hidden_entries_and_progress_stride() {
    assert!(is_hidden(Some(".git")));
    assert!(!is_hidden(Some("git")));
    assert!(!is_hidden(None));
    assert!(scan_progress_due(250));
    assert!(scan_progress_due(500));
    assert!(!scan_progress_due(251));
}

#[test]
fn an_empty_release_designer_means_none() {
    let r: ReleaseInfo = release_from_sidecar("/r".into(), "Set".into(), String::new());
    assert_eq!(r.designer, None);
    assert_eq!(
        root_not_a_directory("/nope").message(),
        "Catalog root '/nope' is not a directory"
    );
}
