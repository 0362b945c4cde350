use plinth::normalize::{
    assemble_plan, check_drop, check_move, common_ancestor, dir_pose, first_some, group_gate,
    group_members, image_names, is_under, member_images, numbered_name, plan_group_checked,
    pose_to_record, same_content, ContentFacts, GroupGate, GroupPlanning, NormalizeGroupPlan,
    NormalizeSkip, PlanFile, PlanMember,
};

fn file(dir: &str, name: &str, desired: &str) -> PlanFile {
    PlanFile {
        path: format!("{}/{}", dir, name),
        file_name: name.to_string(),
        desired_name: desired.to_string(),
    }
}

fn facts(path: &str, size: u64, hash: &str) -> ContentFacts {
    ContentFacts {
        path: path.to_string(),
        identity: None,
        size: Some(size),
        hash: Some(hash.to_string()),
    }
}

fn planned(outcome: Option<GroupPlanning>) -> NormalizeGroupPlan {
    match outcome {
        Some(GroupPlanning::Planned(g)) => g,
        other => panic!("expected a plan, got {:?}", other),
    }
}

#[test]
fn wholesale_move_reshapes_and_round_trips() {
    let root = "/t";
    let old = "/t/bestiarum-07-2026/Dread Swamp/Bog Hag";
    let target = "/t/Bestiarum/2026-07 Dread Swamp/Bog Hag";
    let sup = format!("{}/supported stl", old);
    let unsup = format!("{}/unsupported", old);
    let members = vec![
        PlanMember {
            dir: sup.clone(),
            pose: None,
            leaf: format!("{}/Supported", target),
            files: vec![file(&sup, "bog.lys", "bog.lys")],
        },
        PlanMember {
            dir: unsup.clone(),
            pose: None,
            leaf: format!("{}/Unsupported", target),
            files: vec![file(&unsup, "bog.stl", "bog.stl")],
        },
    ];
    let all_dirs = vec![sup.clone(), unsup.clone()];
    let group = planned(plan_group_checked(
        "Bog Hag", "Bestiarum", root, target, &members, &all_dirs, &Vec::new(), '/',
    ));
    assert_eq!(group.target_dir, target);
    // one wholesale move + two build-folder renames
    assert_eq!(group.ops.len(), 3, "ops: {:?}", group.ops);
    assert_eq!(group.ops[0].kind, "dir");
    assert_eq!(group.ops[0].from, old);
    assert_eq!(group.ops[0].to, target);
    assert_eq!(group.ops[1].from, format!("{}/supported stl", target));
    assert_eq!(group.ops[1].to, format!("{}/Supported", target));
    assert_eq!(group.old_dirs, vec![old.to_string()]);
    assert!(!group.clean);

    // idempotence: once the members sit in their leaves, nothing moves
    let moved: Vec<PlanMember> = members
        .iter()
        .map(|m| PlanMember {
            dir: m.leaf.clone(),
            pose: None,
            leaf: m.leaf.clone(),
            files: m
                .files
                .iter()
                .map(|f| file(&m.leaf, &f.file_name, &f.desired_name))
                .collect(),
        })
        .collect();
    let moved_dirs: Vec<String> = moved.iter().map(|m| m.dir.clone()).collect();
    let again = planned(plan_group_checked(
        "Bog Hag", "Bestiarum", root, target, &moved, &moved_dirs, &Vec::new(), '/',
    ));
    assert!(again.clean, "{:?}", again.ops);
    assert!(again.ops.is_empty());
}

#[test]
fn pose_dirs_merge_with_filename_suffixes() {
    let root = "/t";
    let target = "/t/Bestiarum/2026-07 Dread Swamp/galeb duhr";
    let leaf = format!("{}/Supported", target);
    let a = "/t/galeb duhr/supported/A".to_string();
    let b = "/t/galeb duhr/supported/B".to_string();
    let members = vec![
        PlanMember {
            dir: a.clone(),
            pose: Some("A".into()),
            leaf: leaf.clone(),
            files: vec![file(&a, "galeb duhr.stl", "galeb duhr A.stl")],
        },
        PlanMember {
            dir: b.clone(),
            pose: Some("B".into()),
            leaf: leaf.clone(),
            files: vec![file(&b, "galeb duhr.stl", "galeb duhr B.stl")],
        },
    ];
    let group = planned(plan_group_checked(
        "galeb duhr", "Bestiarum", root, target, &members, &vec![a.clone(), b.clone()], &Vec::new(), '/',
    ));
    let targets: Vec<(String, Option<String>)> = group
        .ops
        .iter()
        .filter(|op| op.kind == "file")
        .map(|op| (op.to.clone(), op.pose.clone()))
        .collect();
    // both poses side by side in ONE build folder, names disambiguated
    assert!(targets.contains(&(format!("{}/galeb duhr A.stl", leaf), Some("A".into()))));
    assert!(targets.contains(&(format!("{}/galeb duhr B.stl", leaf), Some("B".into()))));
}

#[test]
fn identical_files_collapse_and_different_ones_get_numbered() {
    let root = "/t";
    let target = "/t/Bestiarum/2026-07 Dread Swamp/Unicorn Bases";
    let leaf = format!("{}/Supported", target);
    let pt1 = "/t/unicorn/pt1/Bases".to_string();
    let pt2 = "/t/unicorn/pt2/Bases".to_string();
    let members: Vec<PlanMember> = [&pt1, &pt2]
        .iter()
        .map(|d| PlanMember {
            dir: d.to_string(),
            pose: None,
            leaf: leaf.clone(),
            files: vec![file(d, "oval.stl", "oval.stl"), file(d, "square.stl", "square.stl")],
        })
        .collect();
    let content = vec![
        facts(&format!("{}/oval.stl", pt1), 10, "same bytes"),
        facts(&format!("{}/oval.stl", pt2), 10, "same bytes"),
        facts(&format!("{}/square.stl", pt1), 10, "contents a"),
        facts(&format!("{}/square.stl", pt2), 10, "contents b"),
    ];
    let group = planned(plan_group_checked(
        "Unicorn Bases", "Bestiarum", root, target, &members, &vec![pt1.clone(), pt2.clone()], &content, '/',
    ));
    assert!(
        group.ops.iter().any(|op| op.kind == "drop" && op.from == format!("{}/pt2/Bases/oval.stl", target) && op.to == format!("{}/oval.stl", leaf)),
        "identical copy should plan as a drop: {:?}",
        group.ops
    );
    assert!(
        group.notes.iter().any(|n| n.contains("square 2.stl")),
        "differing contents should get a numbered name: {:?}",
        group.notes
    );
    assert!(group.ops.iter().any(|op| op.kind == "file" && op.to == format!("{}/square 2.stl", leaf)));
}

#[test]
fn members_outside_the_root_or_entangled_are_skipped() {
    let members = vec![PlanMember {
        dir: "/elsewhere/x".into(),
        pose: None,
        leaf: "/t/D/x/Supported".into(),
        files: Vec::new(),
    }];
    match plan_group_checked("x", "D", "/t", "/t/D/x", &members, &vec!["/elsewhere/x".into()], &Vec::new(), '/') {
        Some(GroupPlanning::Skipped(sk)) => {
            assert_eq!(sk.group_name, "x");
            assert_eq!(sk.reason, "/elsewhere/x is outside the catalog root");
        },
        other => panic!("{:?}", other),
    }
    // another model's folder nested in the (only) member: the base is the
    // member itself, which cannot move wholesale over a foreign model
    let members = vec![PlanMember {
        dir: "/t/x".into(),
        pose: None,
        leaf: "/t/D/x/Supported".into(),
        files: Vec::new(),
    }];
    let all = vec!["/t/x".to_string(), "/t/x/other".to_string()];
    match plan_group_checked("x", "D", "/t", "/t/D/x", &members, &all, &Vec::new(), '/') {
        Some(GroupPlanning::Skipped(sk)) => {
            assert_eq!(sk.reason, "other models' folders are nested inside /t/x");
        },
        other => panic!("{:?}", other),
    }
}

#[test]
fn numbered_names_skip_taken_ones_case_insensitively() {
    let used = vec![
        ("oval.stl".to_string(), "/a/oval.stl".to_string()),
        ("oval 2.stl".to_string(), "/b/OVAL 2.stl".to_string()),
    ];
    assert_eq!(numbered_name("oval.stl", &used).as_deref(), Some("oval 3.stl"));
    assert_eq!(numbered_name("Oval.STL", &Vec::new()).as_deref(), Some("Oval 2.STL"));
    assert_eq!(numbered_name("README", &Vec::new()).as_deref(), Some("README 2"));
    assert_eq!(numbered_name(".hidden", &Vec::new()).as_deref(), Some(".hidden 2"));
}

#[test]
fn containment_is_segment_aware() {
    assert!(is_under("/lib/a", "/lib/a", '/'));
    assert!(is_under("/lib/a/b", "/lib/a", '/'));
    assert!(!is_under("/lib/ab", "/lib/a", '/'));
    assert!(!is_under("/lib", "/lib/a", '/'));
}

#[test]
fn the_first_member_value_wins() {
    let values = vec![None, Some("DTL".to_string()), Some("Other".to_string())];
    assert_eq!(first_some(&values).as_deref(), Some("DTL"));
    assert_eq!(first_some(&vec![None, None]), None);
}

#[test]
fn same_content_by_identity_or_size_and_hash() {
    let a = ContentFacts { path: "a".into(), identity: Some("1:2".into()), size: Some(1), hash: None };
    let b = ContentFacts { path: "b".into(), identity: Some("1:2".into()), size: Some(9), hash: None };
    assert!(same_content(&a, &b));
    let c = facts("c", 4, "h");
    let d = facts("d", 4, "h");
    let e = facts("e", 5, "h");
    assert!(same_content(&c, &d));
    assert!(!same_content(&c, &e));
    let unreadable = ContentFacts { path: "u".into(), identity: None, size: Some(4), hash: None };
    assert!(!same_content(&c, &unreadable));
}

#[test]
fn common_ancestor_is_component_wise() {
    let dirs = vec!["/t/unicorn/pt1/Bases".to_string(), "/t/unicorn/pt2/Bases".to_string()];
    assert_eq!(common_ancestor(&dirs).as_deref(), Some("/t/unicorn"));
    let dirs = vec!["/t/ab".to_string(), "/t/a".to_string()];
    assert_eq!(common_ancestor(&dirs).as_deref(), Some("/t"));
    assert_eq!(common_ancestor(&Vec::new()), None);
}

#[test]
fn leaf_images_fall_back_to_the_model_root() {
    let own = image_names(&vec!["a.stl".into(), "cover.PNG".into(), "notes.txt".into()]);
    assert_eq!(own, vec!["cover.PNG".to_string()]);
    let root_images = vec!["render.png".to_string()];
    assert_eq!(
        member_images(Vec::new(), &root_images, "/m/Supported", "/m", '/'),
        vec!["../render.png".to_string()]
    );
    assert_eq!(
        member_images(Vec::new(), &root_images, "/m/Supported/A", "/m", '/'),
        vec!["../../render.png".to_string()]
    );
    assert_eq!(member_images(Vec::new(), &root_images, "/m", "/m", '/'), Vec::<String>::new());
    assert_eq!(
        member_images(vec!["own.jpg".into()], &root_images, "/m/Supported", "/m", '/'),
        vec!["own.jpg".to_string()]
    );
    assert_eq!(dir_pose(true, Some("A".into())), None);
    assert_eq!(dir_pose(false, Some("A".into())).as_deref(), Some("A"));
}

#[test]
fn moves_and_drops_are_rechecked_before_they_run() {
    assert_eq!(check_move("/a", "/b", false, false), Err("Source not found: /a".to_string()));
    assert_eq!(
        check_move("/a", "/b", true, true),
        Err("Destination already exists: /b".to_string())
    );
    // a case-only rename reports its own destination as existing
    assert_eq!(check_move("/x/unsupported", "/x/Unsupported", true, true), Ok(()));
    assert_eq!(check_move("/a", "/b", true, false), Ok(()));
    assert_eq!(
        check_drop("/dup", false, true, true),
        Err("Kept copy missing, duplicate left in place: /dup".to_string())
    );
    assert_eq!(
        check_drop("/dup", true, true, false),
        Err("No longer identical to the kept copy, left in place: /dup".to_string())
    );
    assert_eq!(check_drop("/dup", true, true, true), Ok(()));
    assert_eq!(pose_to_record(Some("  ")), None);
    assert_eq!(pose_to_record(Some("A")).as_deref(), Some("A"));
    assert_eq!(pose_to_record(None), None);
}

#[test]
fn groups_gate_on_filters_and_a_designer() {
    let designers = vec![None, Some("Bestiarum".to_string())];
    assert!(matches!(group_gate("Bog Hag", &designers, None, None), GroupGate::Plan(d) if d == "Bestiarum"));
    assert!(matches!(group_gate("Bog Hag", &designers, Some(" bog hag "), None), GroupGate::Plan(_)));
    assert!(matches!(group_gate("Bog Hag", &designers, Some("other"), None), GroupGate::Excluded));
    assert!(matches!(group_gate("Bog Hag", &designers, None, Some("BESTIARUM")), GroupGate::Plan(_)));
    assert!(matches!(group_gate("Bog Hag", &designers, None, Some("dtl")), GroupGate::Excluded));
    match group_gate("Bog Hag", &vec![None], None, None) {
        GroupGate::Skip(sk) => assert_eq!(sk.reason, "no designer set — give the model a designer first"),
        other => panic!("{:?}", other),
    }
}

#[test]
fn members_group_by_name_ignoring_case_in_sorted_order() {
    let names = vec!["Bog Hag".to_string(), "acolyte".to_string(), "bog hag".to_string()];
    assert_eq!(group_members(&names), vec![vec![1], vec![0, 2]]);
}

#[test]
fn the_plan_counts_clean_groups_and_moves() {
    let busy = NormalizeGroupPlan {
        group_name: "a".into(),
        designer: "d".into(),
        target_dir: "/t".into(),
        ops: Vec::new(),
        old_dirs: Vec::new(),
        notes: Vec::new(),
        clean: true,
    };
    let outcomes = vec![
        GroupPlanning::Planned(busy.clone()),
        GroupPlanning::Skipped(NormalizeSkip { group_name: "b".into(), reason: "r".into() }),
    ];
    let plan = assemble_plan(outcomes).unwrap();
    assert_eq!(plan.clean_groups, 1);
    assert!(plan.groups.is_empty());
    assert_eq!(plan.skipped.len(), 1);
    assert_eq!(plan.total_ops, 0);
    assert!(assemble_plan(vec![GroupPlanning::OutOfNames]).is_none());
}

#[test]
fn only_sidecars_and_os_litter_are_swept() {
    use_only_litter();
}

fn use_only_litter() {
    let litter = vec![("model.json".to_string(), true), (".DS_Store".to_string(), true)];
    assert!(plinth::normalize::only_litter(&litter));
    assert!(plinth::normalize::only_litter(&Vec::new()));
    let user = vec![("model.json".to_string(), true), ("notes.txt".to_string(), true)];
    assert!(!plinth::normalize::only_litter(&user));
    let dir_named_like_litter = vec![("Thumbs.db".to_string(), false)];
    assert!(!plinth::normalize::only_litter(&dir_named_like_litter));
}
