use plinth::paths::{child_prefix, is_under, normalize_root};

#[test]
fn a_drive_root_stays_absolute() {
    assert_eq!(normalize_root("Z:\\"), "Z:\\");
    assert_eq!(normalize_root("Z:"), "Z:\\");
    assert_eq!(normalize_root("Z:\\\\"), "Z:\\");
    assert_eq!(normalize_root("Z:/"), "Z:/");
}

#[test]
fn nested_paths_lose_only_their_trailing_separator() {
    assert_eq!(normalize_root("Z:\\Designer\\"), "Z:\\Designer");
    assert_eq!(normalize_root("Z:\\Designer"), "Z:\\Designer");
    assert_eq!(normalize_root("/library/"), "/library");
    assert_eq!(normalize_root("/library"), "/library");
    assert_eq!(normalize_root("/library/sub///"), "/library/sub");
}

#[test]
fn posix_and_unc_roots_survive_normalization() {
    assert_eq!(normalize_root("/"), "/");
    assert_eq!(normalize_root("//"), "/");
    assert_eq!(normalize_root("\\\\nas\\models"), "\\\\nas\\models");
    assert_eq!(normalize_root("\\\\nas\\models\\"), "\\\\nas\\models");
    assert_eq!(
        normalize_root("\\\\nas\\models\\dtl\\"),
        "\\\\nas\\models\\dtl"
    );
}

#[test]
fn relative_paths_are_left_relative() {
    assert_eq!(normalize_root("models/"), "models");
    assert_eq!(normalize_root("models"), "models");
    assert_eq!(normalize_root(""), "");
}

#[test]
fn containment_is_segment_aware_under_every_root_shape() {
    assert!(is_under("Z:\\Designer", "Z:\\"));
    assert!(is_under("Z:\\Designer\\Set", "Z:\\Designer"));
    assert!(is_under("Z:\\Designer", "Z:"));
    assert!(is_under("/library/dtl", "/"));
    assert!(is_under("/library/dtl", "/library/"));
    assert!(is_under("\\\\nas\\models\\dtl", "\\\\nas\\models"));

    assert!(!is_under("/library/ab", "/library/a"));
    assert!(!is_under("Z:\\Designers", "Z:\\Designer"));
    assert!(!is_under("\\\\nas\\modelsOld", "\\\\nas\\models"));
    assert!(!is_under("Y:\\Designer", "Z:\\"));
}

#[test]
fn child_prefix_never_doubles_a_root_separator() {
    assert_eq!(child_prefix("Z:\\"), "Z:\\");
    assert_eq!(child_prefix("Z:"), "Z:\\");
    assert_eq!(child_prefix("/"), "/");
    assert_eq!(child_prefix("\\\\nas\\models"), "\\\\nas\\models\\");
}

#[test]
fn child_prefix_takes_its_separator_from_the_path_not_the_host() {
    assert_eq!(child_prefix("Z:\\Designer"), "Z:\\Designer\\");
    assert_eq!(child_prefix("/library"), "/library/");
    assert_eq!(child_prefix("/library/"), "/library/");
}

#[test]
fn a_root_without_any_separator_takes_the_host_one() {
    let p = child_prefix("models/");
    assert!(p == "models/" || p == "models\\");
}

#[test]
fn a_short_unc_spelling_keeps_its_leading_separator() {
    assert_eq!(normalize_root("\\\\nas\\"), "\\\\nas");
    assert_eq!(normalize_root("\\\\nas"), "\\\\nas");
}

#[test]
fn a_normalized_root_is_a_prefix_and_keeps_a_separator_only_as_a_whole_root() {
    for p in ["/lib/a//", "C:\\models\\", "\\\\srv\\share\\x\\", "rel/dir/", "/", "//"] {
        let n = normalize_root(p);
        assert!(p.starts_with(&n), "{} -> {}", p, n);
        if n.ends_with('/') || n.ends_with('\\') {
            assert!(n == "/" || n == "\\" || (n.len() == 3 && n.as_bytes()[1] == b':'), "{}", n);
        }
    }
    assert_eq!(normalize_root("q:"), "q:\\");
}

#[test]
fn the_child_prefix_matches_containment() {
    let root = "/library/";
    let prefix = child_prefix(root);
    assert_eq!(prefix, "/library/");
    for child in ["/library/a", "/library/a/b", "/library", "/libraryx", "/other"] {
        let n = normalize_root(child);
        let inside = n.starts_with(&prefix) && n != normalize_root(root);
        assert_eq!(inside, is_under(child, root) && n != normalize_root(root), "{}", child);
    }
    assert_eq!(child_prefix(&normalize_root("Z:\\Designer\\")), child_prefix("Z:\\Designer\\"));
}
