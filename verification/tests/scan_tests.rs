use nexusview::scan::FileScanner;

fn paths_of(sc: &FileScanner) -> Vec<String> {
    sc.files.iter().map(|r| r.path.clone()).collect()
}

#[test]
fn text_file_yields_refs_and_tags() {
    let mut sc = FileScanner::new("/r".to_string());
    sc.begin_scan("/r");
    sc.record_file("/r/A.md", Some("[[B.md]] and [x](C.md) #foo #bar"));
    assert_eq!(paths_of(&sc), vec!["/r/A.md"]);
    assert_eq!(sc.files[0].refs, vec!["B.md", "C.md"]);
    assert_eq!(sc.tags.len(), 1);
    assert_eq!(sc.tags[0].path, "/r/A.md");
    assert_eq!(sc.tags[0].tags, vec!["foo", "bar"]);
    assert!(sc.images.is_empty());
}

#[test]
fn image_file_is_never_content_scanned() {
    let mut sc = FileScanner::new("/r".to_string());
    sc.begin_scan("/r");
    sc.record_file("/r/pic.png", Some("[[B.md]] #foo"));
    assert_eq!(paths_of(&sc), vec!["/r/pic.png"]);
    assert!(sc.files[0].refs.is_empty());
    assert_eq!(sc.images, vec!["/r/pic.png"]);
    assert!(sc.tags.is_empty());
}

#[test]
fn unreadable_file_is_skipped_silently() {
    let mut sc = FileScanner::new("/r".to_string());
    sc.begin_scan("/r");
    sc.record_file("/r/blob.bin", None);
    assert!(sc.files.is_empty());
    assert!(sc.images.is_empty());
    assert!(sc.tags.is_empty());
}

#[test]
fn file_with_no_tags_gets_no_tag_record() {
    let mut sc = FileScanner::new("/r".to_string());
    sc.begin_scan("/r");
    sc.record_file("/r/B.md", Some("plain text, no tags"));
    assert_eq!(paths_of(&sc), vec!["/r/B.md"]);
    assert!(sc.tags.is_empty());
}

#[test]
fn rescan_replaces_a_file_record() {
    let mut sc = FileScanner::new("/r".to_string());
    sc.begin_scan("/r");
    sc.record_file("/r/A.md", Some("[[B.md]] #foo"));
    sc.record_file("/r/A.md", Some("[[C.md]]"));
    assert_eq!(paths_of(&sc), vec!["/r/A.md"]);
    assert_eq!(sc.files[0].refs, vec!["C.md"]);
    // The re-scanned content has no tags, so the old tag record is gone.
    assert!(sc.tags.is_empty());
}

#[test]
fn begin_scan_clears_only_the_subtree() {
    let mut sc = FileScanner::new("/r".to_string());
    sc.begin_scan("/r");
    sc.record_file("/r/a/x.md", Some("#ax"));
    sc.record_file("/r/b/y.md", Some("#by"));
    sc.record_file("/r/ab.md", Some("#ab"));
    sc.record_file("/r/a/p.png", Some(""));
    sc.begin_scan("/r/a");
    let paths = paths_of(&sc);
    assert!(!paths.contains(&"/r/a/x.md".to_string()));
    assert!(paths.contains(&"/r/b/y.md".to_string()));
    // "/r/ab.md" shares a prefix with "/r/a" but is outside the subtree.
    assert!(paths.contains(&"/r/ab.md".to_string()));
    assert!(sc.images.is_empty());
    let tag_paths: Vec<&str> = sc.tags.iter().map(|t| t.path.as_str()).collect();
    assert_eq!(tag_paths, vec!["/r/b/y.md", "/r/ab.md"]);
}

#[test]
fn resolution_joins_relative_targets_against_scan_base() {
    let mut sc = FileScanner::new("/r".to_string());
    sc.begin_scan("/r");
    sc.record_file("/r/A.md", Some("[[B.md]] [x](/abs/C.md)"));
    sc.resolve_references();
    assert_eq!(sc.files[0].refs, vec!["/r/B.md", "/abs/C.md"]);
}

#[test]
fn resolution_uses_the_base_of_the_latest_scan() {
    let mut sc = FileScanner::new("/r".to_string());
    sc.begin_scan("/r/sub");
    sc.record_file("/r/sub/A.md", Some("[[B.md]]"));
    sc.resolve_references();
    assert_eq!(sc.files[0].refs, vec!["/r/sub/B.md"]);
}

#[test]
fn hidden_entries_skipped_unless_shown() {
    let mut sc = FileScanner::new("/r".to_string());
    assert!(sc.should_skip_entry(".secret.md"));
    assert!(!sc.should_skip_entry("visible.md"));
    sc.set_show_hidden(true);
    assert!(!sc.should_skip_entry(".secret.md"));
    assert!(sc.show_hidden());
}

#[test]
fn root_path_is_kept() {
    let sc = FileScanner::new("/somewhere".to_string());
    assert_eq!(sc.root_path(), "/somewhere");
    assert!(!sc.show_hidden());
}

#[test]
fn duplicate_image_recorded_once() {
    let mut sc = FileScanner::new("/r".to_string());
    sc.begin_scan("/r");
    sc.record_file("/r/p.png", None);
    sc.record_file("/r/p.png", None);
    assert_eq!(sc.images, vec!["/r/p.png"]);
    assert_eq!(paths_of(&sc), vec!["/r/p.png"]);
}
