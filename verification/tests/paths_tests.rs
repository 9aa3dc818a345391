use nexusview::paths::{
    extension, file_name, in_subtree, is_code_path, is_hidden_name, is_image_path,
    is_markdown_path, is_pdf_path, resolve, str_eq, str_eq_ci,
};

#[test]
fn image_extensions_match_case_insensitively() {
    assert!(is_image_path("a/b/c.png"));
    assert!(is_image_path("a/b/c.PNG"));
    assert!(is_image_path("c.JpEg"));
    assert!(is_image_path("c.webp"));
    assert!(is_image_path("legacy.ind"));
    assert!(!is_image_path("c.txt"));
    assert!(!is_image_path("png"));
}

#[test]
fn markdown_code_pdf_classification() {
    assert!(is_markdown_path("notes/todo.md"));
    assert!(is_markdown_path("notes/todo.MD"));
    assert!(!is_markdown_path("todo.mdx"));
    assert!(is_code_path("src/main.rs"));
    assert!(is_code_path("x.PY"));
    assert!(!is_code_path("x.exe"));
    assert!(is_pdf_path("doc.pdf"));
    assert!(!is_pdf_path("doc.pdfx"));
}

#[test]
fn hidden_name_leading_dot() {
    assert!(is_hidden_name(".secret.md"));
    assert!(is_hidden_name("."));
    assert!(!is_hidden_name("visible.md"));
    assert!(!is_hidden_name(""));
}

#[test]
fn file_name_is_suffix_after_last_separator() {
    assert_eq!(file_name("a/b/c.md"), "c.md");
    assert_eq!(file_name("c.md"), "c.md");
    assert_eq!(file_name("a/b/"), "");
}

#[test]
fn extension_rules() {
    assert_eq!(extension("a/b.tar.gz"), Some("gz".to_string()));
    assert_eq!(extension("a/plain"), None);
    // A leading dot marks a hidden file, not an extension.
    assert_eq!(extension("a/.secret"), None);
    assert_eq!(extension("a/.secret.md"), Some("md".to_string()));
    assert_eq!(extension("a/trailing."), Some("".to_string()));
}

#[test]
fn subtree_membership_respects_component_boundaries() {
    assert!(in_subtree("/r/a", "/r/a"));
    assert!(in_subtree("/r/a/b.md", "/r/a"));
    assert!(!in_subtree("/r/ab.md", "/r/a"));
    assert!(!in_subtree("/r", "/r/a"));
}

#[test]
fn resolve_joins_relative_keeps_absolute() {
    assert_eq!(resolve("/root", "b.md"), "/root/b.md");
    assert_eq!(resolve("/root", "sub/b.md"), "/root/sub/b.md");
    assert_eq!(resolve("/root", "/abs/b.md"), "/abs/b.md");
}

#[test]
fn string_comparison_helpers() {
    assert!(str_eq("abc", "abc"));
    assert!(!str_eq("abc", "abd"));
    assert!(!str_eq("abc", "ab"));
    assert!(str_eq_ci("PnG", "png"));
    assert!(!str_eq_ci("pn", "png"));
    // Only the first string may vary in case: the second is the lower-case
    // reference form.
    assert!(!str_eq_ci("png", "PNG"));
}
