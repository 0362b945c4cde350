use plinth::probe::{
    atomic_replace, case_sensitivity, hardlinks, identity_check, not_a_folder_error,
    not_writable_error, prefix_read, read_after_write, storage_report, supports_links,
    writable_check, ProbeStatus,
};

#[test]
fn a_local_folder_passes_every_check_it_should() {
    let checks = vec![
        writable_check(),
        hardlinks(&Ok(())),
        identity_check(true, &Some("1:2".into()), &Some("1:3".into()), &Some("1:2".into())),
        case_sensitivity(true, false),
        read_after_write(true, 20, 3),
        atomic_replace(true, &Ok(()), true),
        prefix_read(true, &Ok(4)),
    ];
    let report = storage_report("/lib".into(), checks);
    let status = |id: &str| report.checks.iter().find(|c| c.id == id).unwrap().status;
    assert_eq!(status("writable"), ProbeStatus::Passed);
    assert_eq!(status("hardlinks"), ProbeStatus::Passed);
    assert_eq!(status("identity"), ProbeStatus::Passed);
    assert_eq!(status("case"), ProbeStatus::Passed);
    assert_eq!(status("read_after_write"), ProbeStatus::Passed);
    assert_eq!(status("atomic_replace"), ProbeStatus::Passed);
    assert_eq!(status("prefix_read"), ProbeStatus::Passed);
    assert_eq!(report.path, "/lib");
}

#[test]
fn a_missing_folder_is_refused_rather_than_created() {
    assert_eq!(not_a_folder_error("/nope").message(), "'/nope' is not a folder");
    assert!(not_writable_error("/ro", "Permission denied")
        .message()
        .starts_with("Cannot write to '/ro': Permission denied — a read-only mount"));
}

#[test]
fn a_refused_hardlink_is_reported_with_the_volumes_reason() {
    let refused: Result<(), String> = Err("Operation not supported".into());
    assert!(!supports_links(&refused));
    assert!(supports_links(&Ok(())));
    let check = hardlinks(&refused);
    assert_eq!(check.status, ProbeStatus::Unsupported);
    assert_eq!(
        check.detail,
        "Operation not supported — duplicates can be found and deleted here, but not merged"
    );
}

#[test]
fn identity_problems_in_every_direction() {
    let none = identity_check(true, &None, &Some("1".into()), &None);
    assert_eq!(none.status, ProbeStatus::Warn);
    let shared = identity_check(true, &Some("7:7".into()), &Some("7:7".into()), &Some("7:7".into()));
    assert_eq!(shared.status, ProbeStatus::Failed);
    assert_eq!(
        shared.detail,
        "two different files share the identity 7:7 — copies would be misreported as already merged"
    );
    let unstable = identity_check(true, &Some("1".into()), &Some("2".into()), &Some("3".into()));
    assert_eq!(unstable.status, ProbeStatus::Failed);
    let ok = identity_check(true, &Some("1".into()), &Some("2".into()), &Some("1".into()));
    assert_eq!(ok.detail, "distinct and stable (e.g. 1)");
    assert_eq!(identity_check(false, &None, &None, &None).status, ProbeStatus::Failed);
}

#[test]
fn slow_visibility_and_failed_renames_are_reported() {
    let slow = read_after_write(true, 17, 250);
    assert_eq!(slow.status, ProbeStatus::Warn);
    assert_eq!(slow.detail, "17/20 writes were visible on the first check (worst wait 250 ms)");
    assert_eq!(case_sensitivity(true, true).status, ProbeStatus::Warn);
    assert_eq!(atomic_replace(true, &Ok(()), false).status, ProbeStatus::Failed);
    let refused = atomic_replace(true, &Err("EXDEV".into()), false);
    assert_eq!(refused.status, ProbeStatus::Unsupported);
    assert_eq!(refused.detail, "EXDEV — packing and merging cannot finish safely here");
    let timed = prefix_read(true, &Ok(12));
    assert_eq!(timed.millis, Some(12));
    assert_eq!(timed.detail, "read 128 KiB in 12 ms — a duplicate scan pays this per candidate");
    assert_eq!(prefix_read(false, &Ok(1)).status, ProbeStatus::Failed);
    assert_eq!(prefix_read(true, &Err("eof".into())).detail, "eof");
}
