use nexusview::parse::{extract_references, extract_tags};

#[test]
fn paren_link_extracts_target() {
    assert_eq!(extract_references("see [label](target.md) here"), vec!["target.md"]);
}

#[test]
fn wiki_link_extracts_target() {
    assert_eq!(extract_references("see [[B.md]] here"), vec!["B.md"]);
}

#[test]
fn both_forms_in_order() {
    assert_eq!(
        extract_references("[a](one.md) text [[two.md]] more [b](three.md)"),
        vec!["one.md", "two.md", "three.md"]
    );
}

#[test]
fn double_bracket_not_followed_by_paren_form() {
    // `[[x]]` matches as the double-bracket form; the trailing `(y)` is
    // plain text, because matches never overlap.
    assert_eq!(extract_references("[[x]](y)"), vec!["x"]);
}

#[test]
fn paren_form_takes_precedence() {
    // At the same start the parenthesized form is tried first: here its
    // label opens with a second bracket and the target is `b`.
    assert_eq!(extract_references("[[a](b)]]"), vec!["b"]);
}

#[test]
fn unmatched_forms_yield_nothing() {
    assert_eq!(extract_references("[](x)"), Vec::<String>::new());
    assert_eq!(extract_references("[a]b"), Vec::<String>::new());
    assert_eq!(extract_references("[[]]"), Vec::<String>::new());
    assert_eq!(extract_references("[[a]b]]"), Vec::<String>::new());
    assert_eq!(extract_references("[a]("), Vec::<String>::new());
}

#[test]
fn empty_content_has_no_references() {
    assert_eq!(extract_references(""), Vec::<String>::new());
}

#[test]
fn references_with_non_ascii_text_around() {
    assert_eq!(extract_references("héllo wörld [[ä.md]] ✓"), vec!["ä.md"]);
}

#[test]
fn label_free_of_bracket_target_free_of_paren() {
    // The target may hold brackets, the label may hold parentheses.
    assert_eq!(extract_references("[la(bel](ta[rget)"), vec!["ta[rget"]);
}

#[test]
fn tag_simple() {
    assert_eq!(extract_tags("a #foo b"), vec!["foo"]);
}

#[test]
fn tag_maximal_run_and_order() {
    assert_eq!(extract_tags("#one two #three_3 #4"), vec!["one", "three_3", "4"]);
}

#[test]
fn tag_duplicates_preserved() {
    assert_eq!(extract_tags("#x #y #x"), vec!["x", "y", "x"]);
}

#[test]
fn tag_adjacent_hashes() {
    assert_eq!(extract_tags("##foo"), vec!["foo"]);
    assert_eq!(extract_tags("#foo#bar"), vec!["foo", "bar"]);
}

#[test]
fn hash_without_word_char_is_no_tag() {
    assert_eq!(extract_tags("# foo #"), Vec::<String>::new());
    assert_eq!(extract_tags("#!x"), Vec::<String>::new());
}

#[test]
fn tags_and_links_coexist() {
    assert_eq!(extract_references("[[B.md]] #foo"), vec!["B.md"]);
    assert_eq!(extract_tags("[[B.md]] #foo"), vec!["foo"]);
}
