use plinth::catalog::FileVariant;
use plinth::variants::{fan_out, member_label};

fn fv(path: &str, variant: Option<&str>, pose: Option<&str>, support: Option<&str>) -> FileVariant {
    FileVariant {
        path: path.to_string(),
        dir_path: "/lib/mob".to_string(),
        variant: variant.map(String::from),
        pose: pose.map(String::from),
        support_status: support.map(String::from),
    }
}

#[test]
fn a_folder_fans_out_by_support_variant_and_pose() {
    let rows = vec![
        fv("/lib/mob/b.stl", Some("sword"), Some("2"), Some("unsupported")),
        fv("/lib/mob/a.stl", Some("sword"), Some("1"), Some("supported")),
        fv("/lib/mob/c.stl", Some("sword"), Some("2"), Some("unsupported")),
        fv("/lib/mob/d.stl", None, None, None),
        fv("/lib/mob/e.stl", None, Some(""), None),
    ];
    let sizes = vec![
        ("/lib/mob/a.stl".to_string(), 10),
        ("/lib/mob/b.stl".to_string(), 20),
        ("/lib/mob/c.stl".to_string(), 30),
        ("/lib/mob/d.stl".to_string(), 40),
        ("/lib/mob/e.stl".to_string(), 50),
    ];
    let (members, residual, residual_bytes) = fan_out(&rows, &sizes).unwrap();
    assert_eq!(members.len(), 2);
    assert_eq!(members[0].support_status.as_deref(), Some("supported"));
    assert_eq!(members[0].pose, "1");
    assert_eq!(members[0].paths, vec!["/lib/mob/a.stl".to_string()]);
    assert_eq!(members[0].bytes, 10);
    assert_eq!(members[1].support_status.as_deref(), Some("unsupported"));
    assert_eq!(members[1].paths, vec!["/lib/mob/b.stl".to_string(), "/lib/mob/c.stl".to_string()]);
    assert_eq!(members[1].bytes, 50);
    assert_eq!(residual, vec!["/lib/mob/d.stl".to_string(), "/lib/mob/e.stl".to_string()]);
    assert_eq!(residual_bytes, 90);
}

#[test]
fn overflowing_bytes_fail_the_fan_out() {
    let rows = vec![fv("/a", None, Some("1"), None), fv("/b", None, Some("1"), None)];
    let sizes = vec![("/a".to_string(), i64::MAX), ("/b".to_string(), 1)];
    assert!(fan_out(&rows, &sizes).is_none());
}

#[test]
fn a_member_label_names_the_facets_that_are_set() {
    assert_eq!(member_label("mob", "sword", "2"), "mob sword 2");
    assert_eq!(member_label("mob", "", "2"), "mob 2");
    assert_eq!(member_label("mob", "", ""), "mob");
}

use plinth::variants::{expand_folder, FolderFan};

#[test]
fn a_folder_without_poses_passes_through_and_one_with_poses_fans_out() {
    let sizes = vec![("/lib/mob/a.stl".to_string(), 10), ("/lib/mob/d.stl".to_string(), 40)];
    let none = vec![fv("/lib/mob/a.stl", Some("sword"), None, None)];
    assert!(matches!(
        expand_folder(&none, &sizes, "mob", "/lib/mob", &None, &None, &Vec::new()),
        Some(FolderFan::PassThrough)
    ));
    let rows = vec![fv("/lib/mob/a.stl", Some("sword"), Some("2"), None)];
    let previews = vec![("/lib/mob\u{1f}sword\u{1f}2".to_string(), "/r/sword2.png".to_string())];
    let folder_preview = Some("/r/mob.png".to_string());
    match expand_folder(&rows, &sizes, "mob", "/lib/mob", &Some("supported".to_string()), &folder_preview, &previews) {
        Some(FolderFan::Members(v)) => {
            assert_eq!(v.len(), 2);
            assert_eq!(v[0].name, "mob sword 2");
            assert_eq!(v[0].variant.as_deref(), Some("sword"));
            assert_eq!(v[0].pose.as_deref(), Some("2"));
            assert_eq!(v[0].support_status.as_deref(), Some("supported"));
            assert_eq!(v[0].file_count, 1);
            assert_eq!(v[0].total_size_bytes, 10);
            assert_eq!(v[0].preview_path.as_deref(), Some("/r/sword2.png"));
            assert_eq!(v[0].variant_key, "/lib/mob\u{1f}sword\u{1f}2");
            assert_eq!(v[1].name, "mob (unassigned)");
            assert_eq!(v[1].variant, None);
            assert_eq!(v[1].file_count, 1);
            assert_eq!(v[1].total_size_bytes, 40);
            assert_eq!(v[1].preview_path.as_deref(), Some("/r/mob.png"));
            assert_eq!(v[1].variant_key, "/lib/mob\u{1f}\u{1f}");
        }
        other => panic!("{:?}", other),
    }
}
