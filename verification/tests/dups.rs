use plinth::dups::{
    base_shape_str, cancelled, checkpoint_due, finish_progress, full_read, is_stl,
    note_candidate, note_full_read, note_prefix_read, progress_due, start_progress, BaseShape,
    link_refused, merge_check, DupCandidate, DupPhase, DupProgress, FullRead, MergeCheck,
};

#[test]
fn progress_counts_cached_and_read_prefixes() {
    let mut p = start_progress(3);
    assert_eq!(p, DupProgress { total: 3, ..Default::default() });
    note_candidate(&mut p, true);
    assert_eq!((p.processed, p.cached, p.phase), (1, 1, DupPhase::Checking));
    note_candidate(&mut p, false);
    assert_eq!((p.processed, p.cached, p.phase), (2, 1, DupPhase::PrefixHashing));
    let c = DupCandidate { path: "/a.stl".into(), modified_at: 7, content_hash: None, prefix_hash: None };
    let row = note_prefix_read(&mut p, &c, "abc", 99);
    assert_eq!(p.prefix_hashed, 1);
    assert_eq!((row.path.as_str(), row.prefix_hash.as_str(), row.size_bytes, row.modified_at), ("/a.stl", "abc", 99, 7));
    finish_progress(&mut p);
    assert_eq!((p.processed, p.phase), (3, DupPhase::Checking));
}

#[test]
fn bucket_members_are_confirmed_by_the_cheapest_read() {
    assert_eq!(full_read(true, true, 1), FullRead::Known);
    assert_eq!(full_read(false, true, 1), FullRead::HashAndMine);
    assert_eq!(full_read(false, false, 131_073), FullRead::HashFull);
    assert_eq!(full_read(false, false, 131_072), FullRead::PrefixIsFull);
    let mut p = start_progress(1);
    assert!(note_full_read(&mut p, FullRead::HashFull));
    assert_eq!((p.full_hashed, p.phase), (1, DupPhase::FullHashing));
    assert!(!note_full_read(&mut p, FullRead::PrefixIsFull));
    assert_eq!(p.full_hashed, 1);
}

#[test]
fn strides_and_checkpoints() {
    let mut p = start_progress(100);
    p.processed = 50;
    assert!(progress_due(&p));
    p.processed = 51;
    assert!(!progress_due(&p));
    assert!(checkpoint_due(512, 0));
    assert!(checkpoint_due(0, 600));
    assert!(!checkpoint_due(511, 511));
}

#[test]
fn stl_files_and_shapes() {
    assert!(is_stl("/lib/a/Dragon.STL"));
    assert!(!is_stl("/lib/a/dragon.lys"));
    assert!(!is_stl("/lib/a/stl"));
    assert_eq!(base_shape_str(BaseShape::Round), "round");
    assert_eq!(base_shape_str(BaseShape::Square), "square");
    assert_eq!(cancelled().message(), "Duplicate scan cancelled");
}

#[test]
fn merging_rechecks_identity_and_contents() {
    use_merge_check();
}

fn use_merge_check() {
    let keep = Some("1:5".to_string());
    assert!(matches!(
        merge_check("/b", &keep, &Some("1:5".into()), "aa", &Ok("zz".into())),
        MergeCheck::AlreadyOne
    ));
    assert!(matches!(
        merge_check("/b", &keep, &Some("1:6".into()), "aa", &Ok("aa".into())),
        MergeCheck::Link
    ));
    match merge_check("/b", &None, &None, "aa", &Ok("bb".into())) {
        MergeCheck::Refuse(m) => {
            assert_eq!(m, "/b: contents changed since the last scan — rescan duplicates first")
        }
        other => panic!("{:?}", other),
    }
    match merge_check("/b", &None, &None, "aa", &Err("gone".into())) {
        MergeCheck::Refuse(m) => assert_eq!(m, "/b: gone"),
        other => panic!("{:?}", other),
    }
    assert_eq!(link_refused("/b", "EXDEV"), "/b: this location doesn't support merging (EXDEV)");
}
