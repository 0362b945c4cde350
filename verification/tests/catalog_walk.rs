use plinth::catalog::FileRow;
use plinth::normalize::{plan_catalog, GroupInput, PlanFile, PlanMember};
use plinth::scanner::{ancestry, finish_scan, Ancestor, ModelMeta, ScanTally};

fn ancestors_of(dir: &str) -> (Vec<Ancestor>, Option<usize>) {
    let mut out = Vec::new();
    let mut current = dir.to_string();
    loop {
        let name = current.rsplit('/').next().filter(|n| !n.is_empty()).map(str::to_string);
        out.push(Ancestor { path: current.clone(), name });
        match current.rfind('/') {
            Some(0) if current != "/" => current = "/".to_string(),
            Some(i) if i > 0 => current = current[..i].to_string(),
            _ => break,
        }
    }
    let root_at = out.iter().position(|a| a.path == "/r");
    (out, root_at)
}

fn row(dir: &str, name: &str, size: i64) -> FileRow {
    FileRow {
        path: format!("{}/{}", dir, name),
        dir_path: dir.to_string(),
        file_name: name.to_string(),
        extension: "stl".to_string(),
        size_bytes: size,
        modified_at: 0,
    }
}

#[test]
fn model_rows_count_the_files_indexed_in_their_directory() {
    let mut tally = ScanTally::new();
    for (dir, name, size) in [
        ("/r/zeta", "z.stl", 5),
        ("/r/alpha", "a1.stl", 10),
        ("/r/zeta", "z2.stl", 7),
        ("/r/alpha", "a2.stl", 20),
    ] {
        let (anc, at) = ancestors_of(dir);
        assert!(tally.record_model_file(row(dir, name, size), anc, at));
    }
    let (anc, at) = ancestors_of("/r/imgs");
    tally.record_image("/r/imgs", "/r/imgs/x.png".to_string(), anc, at);
    let (anc, at) = ancestors_of("/r/alpha");
    tally.record_metadata(
        "/r/alpha",
        ModelMeta { name: "Alpha".to_string(), description: None, id: None, tags: Vec::new(), preview: None },
        anc,
        at,
    );
    let dirs: Vec<&str> = tally.dirs.iter().map(|d| d.dir_path.as_str()).collect();
    assert_eq!(dirs, vec!["/r/alpha", "/r/imgs", "/r/zeta"]);
    let out = finish_scan(tally, &Vec::new(), &Vec::new(), '/');
    assert_eq!(out.files.len(), 4);
    assert_eq!(out.models.len(), 2);
    assert_eq!(out.models[0].dir_path, "/r/alpha");
    assert_eq!(out.models[0].file_count, 2);
    assert_eq!(out.models[0].total_size_bytes, 30);
    assert_eq!(out.models[0].source, "metadata");
    assert_eq!(out.models[1].dir_path, "/r/zeta");
    assert_eq!(out.models[1].file_count, 2);
    assert_eq!(out.models[1].total_size_bytes, 12);
    assert_eq!(out.models[1].source, "heuristic");
}

#[test]
fn an_overflowing_count_is_refused_and_changes_nothing() {
    let mut tally = ScanTally::new();
    let (anc, at) = ancestors_of("/r/big");
    assert!(tally.record_model_file(row("/r/big", "a.stl", i64::MAX), anc.clone(), at));
    assert!(!tally.record_model_file(row("/r/big", "b.stl", 1), anc, at));
    assert_eq!(tally.files.len(), 1);
    assert_eq!(tally.dirs[0].model_files, 1);
}

fn member(dir: &str, leaf: &str, file: &str) -> PlanMember {
    PlanMember {
        dir: dir.to_string(),
        pose: None,
        leaf: leaf.to_string(),
        files: vec![PlanFile {
            path: format!("{}/{}", dir, file),
            file_name: file.to_string(),
            desired_name: file.to_string(),
        }],
    }
}

#[test]
fn a_catalog_plan_lists_only_groups_with_moves() {
    let target = "/t/Bestiarum/Bog Hag";
    let groups = vec![
        // already in place: counted clean, not listed
        GroupInput {
            display: "Bog Hag".to_string(),
            designers: vec![Some("Bestiarum".to_string())],
            model_dir: target.to_string(),
            members: vec![member(&format!("{}/Supported", target), &format!("{}/Supported", target), "hag.stl")],
        },
        // no designer: skipped with the reason
        GroupInput {
            display: "Newt".to_string(),
            designers: vec![None],
            model_dir: String::new(),
            members: vec![member("/t/misc/newt", "/t/misc/newt", "newt.stl")],
        },
        // misplaced: one move to its leaf
        GroupInput {
            display: "Troll".to_string(),
            designers: vec![Some("Bestiarum".to_string())],
            model_dir: "/t/Bestiarum/Troll".to_string(),
            members: vec![member("/t/loose/troll", "/t/Bestiarum/Troll/Supported", "troll.stl")],
        },
    ];
    let all_dirs = vec![
        format!("{}/Supported", target),
        "/t/misc/newt".to_string(),
        "/t/loose/troll".to_string(),
    ];
    let plan = plan_catalog("/t", &groups, &all_dirs, &Vec::new(), '/', None, None).unwrap();
    assert_eq!(plan.clean_groups, 1);
    assert_eq!(plan.skipped.len(), 1);
    assert_eq!(plan.skipped[0].group_name, "Newt");
    assert_eq!(plan.skipped[0].reason, "no designer set — give the model a designer first");
    assert_eq!(plan.groups.len(), 1);
    assert_eq!(plan.groups[0].group_name, "Troll");
    assert!(!plan.groups[0].ops.is_empty());
    assert_eq!(plan.total_ops as usize, plan.groups[0].ops.len());

    // a group filter leaves the others out
    let only = plan_catalog("/t", &groups, &all_dirs, &Vec::new(), '/', Some(" troll "), None).unwrap();
    assert_eq!(only.groups.len(), 1);
    assert_eq!(only.skipped.len(), 0);
    assert_eq!(only.clean_groups, 0);
}

#[test]
fn ancestry_climbs_to_the_top_and_finds_the_root_by_component() {
    let (steps, root_at) = ancestry("/r/a/b", "/r/");
    let paths: Vec<&str> = steps.iter().map(|a| a.path.as_str()).collect();
    assert_eq!(paths, vec!["/r/a/b", "/r/a", "/r", "/"]);
    let names: Vec<Option<&str>> = steps.iter().map(|a| a.name.as_deref()).collect();
    assert_eq!(names, vec![Some("b"), Some("a"), Some("r"), None]);
    assert_eq!(root_at, Some(2));
    let (_, none) = ancestry("/x/y", "/r");
    assert_eq!(none, None);
}

#[test]
fn planning_the_same_catalog_twice_gives_the_same_plan() {
    let groups = vec![GroupInput {
        display: "Troll".to_string(),
        designers: vec![Some("Bestiarum".to_string())],
        model_dir: "/t/Bestiarum/Troll".to_string(),
        members: vec![member("/t/loose/troll", "/t/Bestiarum/Troll/Supported", "troll.stl")],
    }];
    let all_dirs = vec!["/t/loose/troll".to_string()];
    let a = plan_catalog("/t", &groups, &all_dirs, &Vec::new(), '/', None, None).unwrap();
    let b = plan_catalog("/t", &groups, &all_dirs, &Vec::new(), '/', None, None).unwrap();
    assert_eq!(a.total_ops, b.total_ops);
    assert_eq!(a.clean_groups, b.clean_groups);
    assert_eq!(a.groups.len(), b.groups.len());
    for (x, y) in a.groups.iter().zip(b.groups.iter()) {
        assert_eq!(x.group_name, y.group_name);
        assert_eq!(x.ops.len(), y.ops.len());
        for (o, p) in x.ops.iter().zip(y.ops.iter()) {
            assert_eq!((&o.from, &o.to, &o.kind), (&p.from, &p.to, &p.kind));
        }
    }
}
