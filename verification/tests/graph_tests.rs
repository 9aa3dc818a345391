use nexusview::graph::{FileGraph, GraphNode, TagGraph};
use nexusview::scan::FileScanner;

fn file(p: &str) -> GraphNode {
    GraphNode::File(p.to_string())
}

fn tag(t: &str) -> GraphNode {
    GraphNode::Tag(t.to_string())
}

/// One file referencing another, with one tag: the reference graph links
/// the two files; the tag graph holds only the tagged file and its tag.
#[test]
fn two_file_fixture_builds_both_views() {
    let mut sc = FileScanner::new("/r".to_string());
    sc.begin_scan("/r");
    sc.record_file("/r/A.md", Some("[[B.md]] #foo"));
    sc.record_file("/r/B.md", Some("plain text"));
    sc.resolve_references();

    let mut fg = FileGraph::new();
    fg.build_from_scanner(&sc);
    assert_eq!(fg.nodes, vec![file("/r/A.md"), file("/r/B.md")]);
    assert_eq!(fg.edges, vec![(0, 1)]);

    let mut tg = TagGraph::new();
    tg.build_from_tags(&sc);
    assert_eq!(tg.nodes, vec![file("/r/A.md"), tag("foo")]);
    assert_eq!(tg.edges, vec![(1, 0)]);
    assert_eq!(tg.file_node_indices(), &vec![("/r/A.md".to_string(), 0)]);
    assert_eq!(tg.tag_node_indices(), &vec![("foo".to_string(), 1)]);
}

/// A dangling reference produces no edge and no error.
#[test]
fn dangling_reference_dropped_silently() {
    let mut sc = FileScanner::new("/r".to_string());
    sc.begin_scan("/r");
    sc.record_file("/r/A.md", Some("[[missing.md]]"));
    sc.resolve_references();

    let mut fg = FileGraph::new();
    fg.build_from_scanner(&sc);
    assert_eq!(fg.nodes, vec![file("/r/A.md")]);
    assert!(fg.edges.is_empty());
}

/// Building twice from an unchanged snapshot yields identical node values
/// and edge values.
#[test]
fn rebuild_is_idempotent() {
    let mut sc = FileScanner::new("/r".to_string());
    sc.begin_scan("/r");
    sc.record_file("/r/A.md", Some("[[B.md]] #foo #bar"));
    sc.record_file("/r/B.md", Some("#foo"));
    sc.record_file("/r/p.png", None);
    sc.resolve_references();

    let mut fg1 = FileGraph::new();
    fg1.build_from_scanner(&sc);
    let mut fg2 = FileGraph::new();
    fg2.build_from_scanner(&sc);
    assert_eq!(fg1.nodes, fg2.nodes);
    assert_eq!(fg1.edges, fg2.edges);
    assert_eq!(fg1.node_indices(), fg2.node_indices());

    let mut tg1 = TagGraph::new();
    tg1.build_from_tags(&sc);
    let mut tg2 = TagGraph::new();
    tg2.build_from_tags(&sc);
    assert_eq!(tg1.nodes, tg2.nodes);
    assert_eq!(tg1.edges, tg2.edges);
    assert_eq!(tg1.tag_node_indices(), tg2.tag_node_indices());
}

/// With hidden entries excluded a hidden file reaches neither graph; with
/// them shown it reaches both.
#[test]
fn hidden_file_excluded_from_both_graphs() {
    let entries = [(".secret.md", "[[A.md]] #hush"), ("A.md", "#seen")];

    let mut sc = FileScanner::new("/r".to_string());
    sc.begin_scan("/r");
    for (name, content) in entries {
        if sc.should_skip_entry(name) {
            continue;
        }
        sc.record_file(&format!("/r/{}", name), Some(content));
    }
    sc.resolve_references();
    let mut fg = FileGraph::new();
    fg.build_from_scanner(&sc);
    assert_eq!(fg.nodes, vec![file("/r/A.md")]);
    let mut tg = TagGraph::new();
    tg.build_from_tags(&sc);
    assert_eq!(tg.nodes, vec![file("/r/A.md"), tag("seen")]);

    let mut sc = FileScanner::new("/r".to_string());
    sc.set_show_hidden(true);
    sc.begin_scan("/r");
    for (name, content) in entries {
        if sc.should_skip_entry(name) {
            continue;
        }
        sc.record_file(&format!("/r/{}", name), Some(content));
    }
    sc.resolve_references();
    let mut fg = FileGraph::new();
    fg.build_from_scanner(&sc);
    assert_eq!(fg.nodes, vec![file("/r/.secret.md"), file("/r/A.md")]);
    assert_eq!(fg.edges, vec![(0, 1)]);
    let mut tg = TagGraph::new();
    tg.build_from_tags(&sc);
    assert_eq!(
        tg.nodes,
        vec![file("/r/.secret.md"), file("/r/A.md"), tag("hush"), tag("seen")]
    );
}

/// Images are nodes in both views; one shared by the file set appears once
/// in the reference graph.
#[test]
fn images_join_both_views() {
    let mut sc = FileScanner::new("/r".to_string());
    sc.begin_scan("/r");
    sc.record_file("/r/A.md", Some("[[p.png]] #art"));
    sc.record_file("/r/p.png", None);
    sc.resolve_references();

    let mut fg = FileGraph::new();
    fg.build_from_scanner(&sc);
    // The image already has a file record, so no second node for it.
    assert_eq!(fg.nodes, vec![file("/r/A.md"), file("/r/p.png")]);
    assert_eq!(fg.edges, vec![(0, 1)]);

    let mut tg = TagGraph::new();
    tg.build_from_tags(&sc);
    // Tagged file, then the image, then the tag.
    assert_eq!(tg.nodes, vec![file("/r/A.md"), file("/r/p.png"), tag("art")]);
    assert_eq!(tg.edges, vec![(2, 0)]);
}

/// A tag shared by two files gets one node and two membership edges.
#[test]
fn shared_tag_single_node_two_edges() {
    let mut sc = FileScanner::new("/r".to_string());
    sc.begin_scan("/r");
    sc.record_file("/r/A.md", Some("#foo #solo"));
    sc.record_file("/r/B.md", Some("#foo"));
    sc.resolve_references();

    let mut tg = TagGraph::new();
    tg.build_from_tags(&sc);
    assert_eq!(tg.nodes, vec![file("/r/A.md"), file("/r/B.md"), tag("foo"), tag("solo")]);
    assert_eq!(tg.edges, vec![(2, 0), (3, 0), (2, 1)]);
}

/// Duplicate references give duplicate edges: each is its own spring.
#[test]
fn duplicate_references_keep_duplicate_edges() {
    let mut sc = FileScanner::new("/r".to_string());
    sc.begin_scan("/r");
    sc.record_file("/r/A.md", Some("[[B.md]] [[B.md]]"));
    sc.record_file("/r/B.md", Some(""));
    sc.resolve_references();

    let mut fg = FileGraph::new();
    fg.build_from_scanner(&sc);
    assert_eq!(fg.edges, vec![(0, 1), (0, 1)]);
}

/// The path-to-index lookup names every node of the reference graph.
#[test]
fn node_indices_cover_all_nodes() {
    let mut sc = FileScanner::new("/r".to_string());
    sc.begin_scan("/r");
    sc.record_file("/r/A.md", Some("x"));
    sc.record_file("/r/p.png", None);
    sc.resolve_references();

    let mut fg = FileGraph::new();
    fg.build_from_scanner(&sc);
    assert_eq!(
        fg.node_indices(),
        &vec![("/r/A.md".to_string(), 0), ("/r/p.png".to_string(), 1)]
    );
}
