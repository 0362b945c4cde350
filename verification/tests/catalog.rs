use plinth::catalog::{carry_hashes, retained_tags, FileRow, KnownHash, TagRow};
use plinth::catalog::{
    entry_select_sql, fts_norm, fts_query, image_extension, model_extension, parse_variant_key,
    variant_key,
};

#[test]
fn variant_keys_round_trip_their_facets() {
    let key = variant_key("/lib/galeb duhr", "bust", "A");
    assert_eq!(key, "/lib/galeb duhr\u{1f}bust\u{1f}A");
    assert_eq!(parse_variant_key(&key), ("bust".to_string(), "A".to_string()));
    let unset = variant_key("/lib/x", "", "");
    assert_eq!(parse_variant_key(&unset), (String::new(), String::new()));
    assert_eq!(parse_variant_key("no separators"), (String::new(), "no separators".to_string()));
}

#[test]
fn search_text_becomes_quoted_and_words() {
    assert_eq!(fts_query("Bog Hag"), "\"Bog\" AND \"Hag\"");
    assert_eq!(fts_query("  dragon's  lair "), "\"dragons\" AND \"lair\"");
    // words shorter than three alphanumerics are dropped
    assert_eq!(fts_query("a an the"), "\"the\"");
    assert_eq!(fts_query(""), "");
}

#[test]
fn normalization_strips_apostrophes_and_hyphens_in_sql() {
    assert_eq!(
        fts_norm("m.name"),
        "REPLACE(REPLACE(REPLACE(REPLACE(m.name, '''', ''), '-', ''), char(8217), ''), char(8216), '')"
    );
    assert!(entry_select_sql("WHERE 1", "LIMIT 5").contains("WHERE 1"));
}

#[test]
fn extensions_of_models_and_images() {
    assert!(model_extension("stl"));
    assert!(model_extension("chitubox"));
    assert!(!model_extension("STL"), "extensions are compared lowercased");
    assert!(image_extension("webp"));
    assert!(!image_extension("tif"));
}

#[test]
fn only_unchanged_files_keep_their_hashes() {
    let row = |p: &str, size: i64, mtime: i64| FileRow {
        path: p.to_string(),
        dir_path: "/d".to_string(),
        file_name: "f".to_string(),
        extension: "stl".to_string(),
        size_bytes: size,
        modified_at: mtime,
    };
    let old = vec![
        KnownHash { path: "/d/a.stl".to_string(), size_bytes: 10, modified_at: 5, content_hash: Some("blake3:aa".to_string()), file_identity: Some("1:2".to_string()) },
        KnownHash { path: "/d/b.stl".to_string(), size_bytes: 10, modified_at: 5, content_hash: Some("blake3:bb".to_string()), file_identity: None },
    ];
    let files = vec![row("/d/a.stl", 10, 5), row("/d/b.stl", 10, 6), row("/d/c.stl", 1, 1)];
    let kept = carry_hashes(&old, &files);
    assert_eq!(kept[0], (Some("blake3:aa".to_string()), Some("1:2".to_string())));
    assert_eq!(kept[1], (None, None));
    assert_eq!(kept[2], (None, None));
}

#[test]
fn a_rescan_keeps_user_tags_refreshes_metadata_and_drops_vanished_models() {
    let tag = |d: &str, t: &str, s: &str| TagRow { dir_path: d.to_string(), tag: t.to_string(), source: s.to_string() };
    let old = vec![
        tag("/m/a", "dragon", "user"),
        tag("/m/a", "old-meta", "metadata"),
        tag("/m/gone", "lost", "user"),
    ];
    let meta = vec![
        ("/m/a".to_string(), "dragon".to_string()),
        ("/m/a".to_string(), "red".to_string()),
        ("/m/a".to_string(), "red".to_string()),
    ];
    let dirs = vec!["/m/a".to_string()];
    let kept = retained_tags(&old, &meta, &dirs);
    let views: Vec<(&str, &str, &str)> = kept.iter().map(|t| (t.dir_path.as_str(), t.tag.as_str(), t.source.as_str())).collect();
    assert_eq!(views, vec![("/m/a", "dragon", "user"), ("/m/a", "red", "metadata")]);
}
