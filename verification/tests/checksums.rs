use plinth::storage::{archive_entry, content_checksum, content_hash, prefix_hash, verify_component, ArchiveDedup};

#[test]
fn blake3_hashes_match_the_reference_values() {
    assert_eq!(content_hash(b""), "af1349b9f5f9a1a6a0404dea36dcc9499bcb25c9adc112b7cc9a93cae41f3262");
    assert_eq!(content_hash(b"abc"), "6437b3ac38465133ffb63b75273a8db548c558465d79db03fd359c6cd5bd9d85");
    assert_eq!(content_checksum(b"abc"), "blake3:6437b3ac38465133ffb63b75273a8db548c558465d79db03fd359c6cd5bd9d85");
    assert_eq!(prefix_hash(b"abcdef", 3), content_hash(b"abc"));
    assert_eq!(prefix_hash(b"ab", 3), content_hash(b"ab"));
}

#[test]
fn each_content_is_stored_once() {
    let mut dedup = ArchiveDedup::new();
    let a = archive_entry(&mut dedup, "a.stl".to_string(), b"solid a");
    let b = archive_entry(&mut dedup, "b.stl".to_string(), b"solid b");
    let a2 = archive_entry(&mut dedup, "copy/a.stl".to_string(), b"solid a");
    assert!(a.stored && b.stored && !a2.stored);
    assert_eq!(a.checksum, a2.checksum);
    assert_eq!(a.checksum, content_checksum(b"solid a"));
    assert_eq!(a2.size_bytes, 7);
    assert_eq!(a2.name, "copy/a.stl");
}

#[test]
fn an_imported_archive_must_match_its_checksum() {
    let data: &[u8] = b"archive bytes";
    let good = content_checksum(data);
    assert!(verify_component("Heroes", "Heroes.zip", Some(data), &good).is_ok());
    assert_eq!(
        verify_component("Heroes", "Heroes.zip", Some(b"archive byteZ"), &good).unwrap_err(),
        "Heroes: checksum mismatch — the archive is corrupted or was modified"
    );
    assert_eq!(
        verify_component("Heroes", "Heroes.zip", None, &good).unwrap_err(),
        "Heroes: archive 'Heroes.zip' is missing"
    );
}
