use plinth::scanner::{infer_designer, infer_model_identity, Ancestor, InferredModel};

/// The directory and its parents up to `/`, as the walk hands them over,
/// with the index of the catalog root among them.
fn ancestry(dir: &str, root: &str) -> (Vec<Ancestor>, Option<usize>) {
    let mut out = Vec::new();
    let mut current = dir.to_string();
    loop {
        let name = current.rsplit('/').next().filter(|n| !n.is_empty()).map(str::to_string);
        out.push(Ancestor { path: current.clone(), name });
        if current == "/" {
            break;
        }
        match current.rfind('/') {
            Some(0) => current = "/".to_string(),
            Some(i) => current = current[..i].to_string(),
            None => break,
        }
    }
    let root_at = out.iter().position(|a| a.path == root);
    (out, root_at)
}

fn infer(root: &str, dir: &str) -> InferredModel {
    let (ancestors, root_at) = ancestry(dir, root);
    let leaf = dir.rsplit('/').next().unwrap_or(dir).to_string();
    infer_model_identity(&ancestors, root_at, &leaf)
}

#[test]
fn infers_identity_from_stacked_folders() {
    let root = "/lib";

    // release-with-date / model / support / pose
    let inferred = infer(root, "/lib/dungeon_classics-05-2026/galeb_duhr/unsupported/A");
    assert_eq!(inferred.name, "galeb duhr A", "underscores prettified");
    assert_eq!(inferred.group_name, "galeb duhr");
    assert_eq!(inferred.pose.as_deref(), Some("A"));
    assert_eq!(inferred.support_status.as_deref(), Some("unsupported"));
    assert_eq!(inferred.release_date.as_deref(), Some("2026-05"));

    // presupported counts as supported; "pose 2" is a variant marker
    let inferred = infer(root, "/lib/rats/pre-supported/pose 2");
    assert_eq!(inferred.name, "rats 2");
    assert_eq!(inferred.group_name, "rats", "poses share the group");
    assert_eq!(inferred.pose.as_deref(), Some("2"));
    assert_eq!(inferred.support_status.as_deref(), Some("supported"));

    // a plain named dir stays exactly what it was
    let inferred = infer(root, "/lib/loose");
    assert_eq!(inferred.name, "loose");
    assert!(inferred.pose.is_none());
    assert!(inferred.support_status.is_none());

    // packaging all the way to the root: fall back to the leaf name
    let inferred = infer(root, "/lib/supported");
    assert_eq!(inferred.name, "supported");

    // a short ancestor above the name is a collection, not a pose
    let inferred = infer(root, "/lib/xx/minotaur/stls");
    assert_eq!(inferred.name, "minotaur");
    assert!(inferred.pose.is_none());

    // descriptive poses are variants, unknown words stay names
    let inferred = infer(root, "/lib/knight/supported/on_a_horse");
    assert_eq!(inferred.name, "knight on a horse");
    assert_eq!(inferred.pose.as_deref(), Some("on a horse"));
    let inferred = infer(root, "/lib/knight/unsupported/standing");
    assert_eq!(inferred.name, "knight standing");
    assert_eq!(inferred.pose.as_deref(), Some("standing"));
    assert_eq!(inferred.group_name, "knight");
    let inferred = infer(root, "/lib/creatures/minotaur");
    assert_eq!(inferred.name, "minotaur", "unknown words are names");

    // pose baked into the name segment
    let inferred = infer(root, "/lib/dungeon_classics/galeb duhr A");
    assert_eq!(inferred.name, "galeb duhr A");
    assert_eq!(inferred.group_name, "galeb duhr", "poses share the group");
    assert_eq!(inferred.pose.as_deref(), Some("A"));
    let inferred = infer(root, "/lib/dungeon_classics/galeb_duhr_B2");
    assert_eq!(inferred.pose.as_deref(), Some("B2"));
    assert_eq!(inferred.group_name, "galeb duhr");

    // a trailing token that isn't a short marker stays part of the name
    let inferred = infer(root, "/lib/tanks/warhammer 40k");
    assert_eq!(inferred.name, "warhammer 40k");
    assert!(inferred.pose.is_none());
    let inferred = infer(root, "/lib/misc/st b");
    assert_eq!(inferred.name, "st b", "base too short to split");
    assert!(inferred.pose.is_none());

    // slicer-format words on a support folder
    let inferred = infer(root, "/lib/dryad dragon/stl supported");
    assert_eq!(inferred.name, "dryad dragon");
    assert_eq!(inferred.support_status.as_deref(), Some("supported"));
    let inferred = infer(root, "/lib/dryad dragon/lys presupported");
    assert_eq!(inferred.name, "dryad dragon");
    assert_eq!(inferred.support_status.as_deref(), Some("supported"));
    let inferred = infer(root, "/lib/dryad dragon/unsupported chitu");
    assert_eq!(inferred.support_status.as_deref(), Some("unsupported"));
}

#[test]
fn the_identity_root_is_remembered_as_the_base_dir() {
    let inferred = infer("/lib", "/lib/goblin/supported");
    assert_eq!(inferred.name, "goblin");
    assert_eq!(inferred.base_dir.as_deref(), Some("/lib/goblin"));
}

#[test]
fn variants_share_their_group_name() {
    for dir in ["/lib/galeb duhr A", "/lib/galeb duhr/B", "/lib/galeb_duhr/supported/C"] {
        let inferred = infer("/lib", dir);
        assert_eq!(inferred.group_name, "galeb duhr");
        let pose = inferred.pose.clone().expect("a pose");
        assert_eq!(inferred.name, format!("{} {}", inferred.group_name, pose));
    }
}

#[test]
fn infers_designer_from_a_studio_folder() {
    let designers = vec!["Dragon Trapper's Lodge".to_string(), "Titan Forge".to_string()];
    let (ancestors, root_at) = ancestry("/lib/dragon_trappers_lodge/goblin", "/lib");
    assert_eq!(
        infer_designer(&ancestors, root_at, &designers).as_deref(),
        Some("Dragon Trapper's Lodge")
    );
    let (ancestors, root_at) = ancestry("/lib/misc/goblin", "/lib");
    assert_eq!(infer_designer(&ancestors, root_at, &designers), None);
    // the climb stops at the catalog root, but the root's own name counts
    let (ancestors, root_at) = ancestry("/TitanForge/goblin", "/TitanForge");
    assert_eq!(infer_designer(&ancestors, root_at, &designers).as_deref(), Some("Titan Forge"));
    let (ancestors, root_at) = ancestry("/TitanForge/lib/goblin", "/TitanForge/lib");
    assert_eq!(infer_designer(&ancestors, root_at, &designers), None);
}
