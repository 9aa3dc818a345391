//! The two graph views built from scanner facts.
//!
//! Node identity is the value (file path or tag name); the index a node gets
//! is an arena slot valid only for the build that produced it, never kept
//! across rebuilds. Both builders are pure functions of the scanner facts:
//! their whole result is pinned down by spec functions of those facts, so
//! rebuilding from unchanged facts provably yields the same graph.
//!
//! The reference graph holds one node per scanned file and image and one
//! edge per resolved reference whose target is itself a known node; dangling
//! references are dropped silently. The tag graph holds one node per tagged
//! file, one per image, one per distinct tag, and one edge per (tag, file)
//! membership, directed tag to file; untagged files are absent from it.

#![verifier::loop_isolation(false)]

use vstd::prelude::*;
use vstd::string::*;
use crate::scan::{FileFact, FileScanner, ScanFacts, TagFact};

verus! {

/// A graph node: a file (or image) path, or a tag name.
#[derive(Debug, Clone, PartialEq, Eq, Hash)]
pub enum GraphNode {
    File(String),
    Tag(String),
}

/// The mathematical value of a graph node.
pub enum NodeValue {
    File(Seq<char>),
    Tag(Seq<char>),
}

impl View for GraphNode {
    type V = NodeValue;

    open spec fn view(&self) -> NodeValue {
        match self {
            GraphNode::File(s) => NodeValue::File(s@),
            GraphNode::Tag(s) => NodeValue::Tag(s@),
        }
    }
}

pub open spec fn nodes_view(v: Seq<GraphNode>) -> Seq<NodeValue> {
    v.map_values(|n: GraphNode| n@)
}

pub open spec fn pairs_view(v: Seq<(String, usize)>) -> Seq<(Seq<char>, int)> {
    v.map_values(|p: (String, usize)| (p.0@, p.1 as int))
}

pub open spec fn edges_view(v: Seq<(usize, usize)>) -> Seq<(int, int)> {
    v.map_values(|e: (usize, usize)| (e.0 as int, e.1 as int))
}

/// The first index at which `p` occurs in `paths`, if any.
pub open spec fn spec_find_seq(paths: Seq<Seq<char>>, p: Seq<char>) -> Option<int>
    decreases paths.len(),
{
    if paths.len() == 0 {
        None
    } else if paths[0] == p {
        Some(0)
    } else {
        match spec_find_seq(paths.skip(1), p) {
            None => None,
            Some(i) => Some(i + 1),
        }
    }
}

/// The value stored with the first pair whose key is `p`, if any.
pub open spec fn spec_find_pair(pairs: Seq<(Seq<char>, int)>, p: Seq<char>) -> Option<int>
    decreases pairs.len(),
{
    if pairs.len() == 0 {
        None
    } else if pairs[0].0 == p {
        Some(pairs[0].1)
    } else {
        spec_find_pair(pairs.skip(1), p)
    }
}

/// The paths of the reference graph's nodes, in insertion order: every
/// scanned file, then every image not already among the files.
pub open spec fn spec_ref_node_paths(s: ScanFacts) -> Seq<Seq<char>> {
    let file_paths = s.files.map_values(|f: FileFact| f.path);
    file_paths + s.images.filter(|p: Seq<char>| !file_paths.contains(p))
}

/// The edge, if any, for one raw reference from the node at `src`: present
/// exactly when the target is a known node.
pub open spec fn spec_edge_for(paths: Seq<Seq<char>>, src: int, t: Seq<char>) -> Seq<(int, int)> {
    match spec_find_seq(paths, t) {
        Some(k) => seq![(src, k)],
        None => Seq::empty(),
    }
}

/// The edges for the first `j` references of the file at node `src`.
pub open spec fn spec_refs_edges(
    paths: Seq<Seq<char>>,
    src: int,
    refs: Seq<Seq<char>>,
    j: int,
) -> Seq<(int, int)>
    decreases j,
{
    if j <= 0 {
        Seq::empty()
    } else {
        spec_refs_edges(paths, src, refs, j - 1) + spec_edge_for(paths, src, refs[j - 1])
    }
}

/// The edges contributed by the first `i` scanned files; the file at
/// position `i` is the node with index `i`.
pub open spec fn spec_ref_edges(
    files: Seq<FileFact>,
    paths: Seq<Seq<char>>,
    i: int,
) -> Seq<(int, int)>
    decreases i,
{
    if i <= 0 {
        Seq::empty()
    } else {
        spec_ref_edges(files, paths, i - 1) + spec_refs_edges(
            paths,
            i - 1,
            files[i - 1].refs,
            files[i - 1].refs.len() as int,
        )
    }
}

/// The whole reference graph determined by the facts `s`.
pub open spec fn spec_built_from_scanner(g: FileGraph, s: ScanFacts) -> bool {
    let paths = spec_ref_node_paths(s);
    &&& nodes_view(g.nodes@) == paths.map_values(|p: Seq<char>| NodeValue::File(p))
    &&& pairs_view(g.node_indices@) == Seq::new(paths.len(), |k: int| (paths[k], k))
    &&& edges_view(g.edges@) == spec_ref_edges(s.files, paths, s.files.len() as int)
}

/// The reference graph: all scanned files and images, with one edge per
/// resolved reference to a known node.
pub struct FileGraph {
    pub nodes: Vec<GraphNode>,
    pub edges: Vec<(usize, usize)>,
    pub node_indices: Vec<(String, usize)>,
}

/// The tag graph under construction: its nodes, its edges, and the tag
/// names already given a node, each with that node's index.
pub struct TagBuild {
    pub nodes: Seq<NodeValue>,
    pub edges: Seq<(int, int)>,
    pub tag_ids: Seq<(Seq<char>, int)>,
}

/// The tag graph before any tag is processed: one node per tagged file,
/// then one per image, no edges and no tag nodes yet.
pub open spec fn spec_tag_initial(s: ScanFacts) -> TagBuild {
    TagBuild {
        nodes: s.tags.map_values(|t: TagFact| NodeValue::File(t.path)) + s.images.map_values(
            |p: Seq<char>| NodeValue::File(p),
        ),
        edges: Seq::empty(),
        tag_ids: Seq::empty(),
    }
}

/// One tag occurrence in the file at node `file_idx`: reuse the tag's node
/// or append a new one, then add the membership edge tag-to-file.
pub open spec fn spec_tag_step(acc: TagBuild, file_idx: int, tag: Seq<char>) -> TagBuild {
    match spec_find_pair(acc.tag_ids, tag) {
        Some(t) => TagBuild { edges: acc.edges.push((t, file_idx)), ..acc },
        None => TagBuild {
            nodes: acc.nodes.push(NodeValue::Tag(tag)),
            edges: acc.edges.push((acc.nodes.len() as int, file_idx)),
            tag_ids: acc.tag_ids.push((tag, acc.nodes.len() as int)),
        },
    }
}

/// The build state after the first `j` tags of the record at `i`.
pub open spec fn spec_tag_fold_tags(
    acc: TagBuild,
    file_idx: int,
    tags: Seq<Seq<char>>,
    j: int,
) -> TagBuild
    decreases j,
{
    if j <= 0 {
        acc
    } else {
        spec_tag_step(spec_tag_fold_tags(acc, file_idx, tags, j - 1), file_idx, tags[j - 1])
    }
}

/// The build state after the first `i` tag records; the record at position
/// `i` owns the file node with index `i`.
pub open spec fn spec_tag_fold(s: ScanFacts, i: int) -> TagBuild
    decreases i,
{
    if i <= 0 {
        spec_tag_initial(s)
    } else {
        let acc = spec_tag_fold(s, i - 1);
        spec_tag_fold_tags(acc, i - 1, s.tags[i - 1].tags, s.tags[i - 1].tags.len() as int)
    }
}

/// The whole tag graph determined by the facts `s`.
pub open spec fn spec_built_from_tags(g: TagGraph, s: ScanFacts) -> bool {
    let b = spec_tag_fold(s, s.tags.len() as int);
    &&& nodes_view(g.nodes@) == b.nodes
    &&& edges_view(g.edges@) == b.edges
    &&& pairs_view(g.tag_node_indices@) == b.tag_ids
    &&& pairs_view(g.file_node_indices@) == Seq::new(s.tags.len(), |k: int| (s.tags[k].path, k))
    &&& pairs_view(g.image_node_indices@) == Seq::new(
        s.images.len(),
        |k: int| (s.images[k], s.tags.len() + k),
    )
}

/// The tag graph: tagged files, images and distinct tags, with one edge per
/// (tag, file) membership.
pub struct TagGraph {
    pub nodes: Vec<GraphNode>,
    pub edges: Vec<(usize, usize)>,
    pub file_node_indices: Vec<(String, usize)>,
    pub image_node_indices: Vec<(String, usize)>,
    pub tag_node_indices: Vec<(String, usize)>,
}

proof fn lemma_find_seq_at(v: Seq<Seq<char>>, p: Seq<char>, k: int)
    requires
        0 <= k < v.len(),
        v[k] == p,
        forall|j: int| 0 <= j < k ==> v[j] != p,
    ensures
        spec_find_seq(v, p) == Some(k),
    decreases v.len(),
{
    if k > 0 {
        lemma_find_seq_at(v.skip(1), p, k - 1);
    }
}

proof fn lemma_find_seq_none(v: Seq<Seq<char>>, p: Seq<char>)
    requires
        forall|j: int| 0 <= j < v.len() ==> v[j] != p,
    ensures
        spec_find_seq(v, p) is None,
    decreases v.len(),
{
    if v.len() > 0 {
        lemma_find_seq_none(v.skip(1), p);
    }
}

proof fn lemma_find_pair_at(v: Seq<(Seq<char>, int)>, p: Seq<char>, k: int)
    requires
        0 <= k < v.len(),
        v[k].0 == p,
        forall|j: int| 0 <= j < k ==> v[j].0 != p,
    ensures
        spec_find_pair(v, p) == Some(v[k].1),
    decreases v.len(),
{
    if k > 0 {
        lemma_find_pair_at(v.skip(1), p, k - 1);
    }
}

proof fn lemma_find_pair_none(v: Seq<(Seq<char>, int)>, p: Seq<char>)
    requires
        forall|j: int| 0 <= j < v.len() ==> v[j].0 != p,
    ensures
        spec_find_pair(v, p) is None,
    decreases v.len(),
{
    if v.len() > 0 {
        lemma_find_pair_none(v.skip(1), p);
    }
}

/// The first position in `pairs`, before `upto`, whose key equals `p`.
fn find_pair_upto(pairs: &Vec<(String, usize)>, upto: usize, p: &str) -> (r: Option<usize>)
    requires
        upto <= pairs@.len(),
    ensures
        match r {
            Some(k) => k < upto && pairs_view(pairs@)[k as int].0 == p@ && (forall|j: int|
                0 <= j < k ==> (#[trigger] pairs_view(pairs@)[j]).0 != p@),
            None => forall|j: int| 0 <= j < upto ==> (#[trigger] pairs_view(pairs@)[j]).0 != p@,
        },
{
    let mut i: usize = 0;
    while i < upto
        invariant
            i <= upto,
            upto <= pairs@.len(),
            forall|j: int| 0 <= j < i ==> (#[trigger] pairs_view(pairs@)[j]).0 != p@,
        decreases upto - i,
    {
        if crate::paths::str_eq(pairs[i].0.as_str(), p) {
            return Some(i);
        }
        i = i + 1;
    }
    None
}

impl FileGraph {
    /// An empty reference graph.
    pub fn new() -> (g: Self)
        ensures
            g.nodes@.len() == 0,
            g.edges@.len() == 0,
            g.node_indices@.len() == 0,
    {
        FileGraph { nodes: Vec::new(), edges: Vec::new(), node_indices: Vec::new() }
    }

    /// The lookup from file path to node index.
    pub fn node_indices(&self) -> (r: &Vec<(String, usize)>)
        ensures
            r@ == self.node_indices@,
    {
        &self.node_indices
    }

    /// Rebuild the reference graph wholesale from the scanner's facts.
    pub fn build_from_scanner(&mut self, scanner: &FileScanner)
        requires
            scanner.wf(),
        ensures
            spec_built_from_scanner(*final(self), scanner@),
            final(self).nodes@.len() == spec_ref_node_paths(scanner@).len(),
            forall|e: int|
                0 <= e < final(self).edges@.len() ==> (#[trigger] final(self).edges@[e]).0
                    < final(self).nodes@.len() && final(self).edges@[e].1
                    < final(self).nodes@.len(),
    {
        proof {
            reveal(Seq::filter);
        }
        let ghost s = scanner@;
        let ghost file_paths = s.files.map_values(|f: FileFact| f.path);
        let ghost img_pred = |p: Seq<char>| !file_paths.contains(p);
        let ghost paths = spec_ref_node_paths(s);
        self.nodes = Vec::new();
        self.edges = Vec::new();
        self.node_indices = Vec::new();

        let files_len = scanner.files.len();
        let mut i: usize = 0;
        proof {
            assert(nodes_view(self.nodes@) =~= file_paths.take(0).map_values(
                |p: Seq<char>| NodeValue::File(p),
            ));
            assert(pairs_view(self.node_indices@) =~= Seq::new(0, |k: int| (file_paths[k], k)));
        }
        while i < files_len
            invariant
                i <= files_len,
                files_len == s.files.len(),
                self.nodes@.len() == i,
                self.edges@.len() == 0,
                self.node_indices@.len() == i,
                nodes_view(self.nodes@) == file_paths.take(i as int).map_values(
                    |p: Seq<char>| NodeValue::File(p),
                ),
                pairs_view(self.node_indices@) == Seq::new(i as nat, |k: int| (file_paths[k], k)),
            decreases files_len - i,
        {
            let p = scanner.files[i].path.clone();
            proof {
                assert(s.files[i as int] == scanner.files@[i as int]@);
                assert(p@ == file_paths[i as int]);
            }
            let node = GraphNode::File(p.clone());
            let ghost prev_nodes = self.nodes@;
            let ghost prev_pairs = self.node_indices@;
            proof {
                assert(node@ == NodeValue::File(file_paths[i as int]));
                assert(nodes_view(prev_nodes.push(node)) =~= nodes_view(prev_nodes).push(node@));
                assert(nodes_view(prev_nodes).push(node@) =~= file_paths.take(i + 1).map_values(
                    |q: Seq<char>| NodeValue::File(q),
                ));
                assert(pairs_view(prev_pairs.push((p, i))) =~= pairs_view(prev_pairs).push(
                    (p@, i as int),
                ));
                assert(pairs_view(prev_pairs).push((p@, i as int)) =~= Seq::new(
                    (i + 1) as nat,
                    |k: int| (file_paths[k], k),
                ));
            }
            self.nodes.push(node);
            self.node_indices.push((p, i));
            i = i + 1;
        }
        proof {
            assert(file_paths.take(files_len as int) =~= file_paths);
        }

        let images_len = scanner.images.len();
        let mut j: usize = 0;
        proof {
            assert(file_paths + s.images.take(0).filter(img_pred) =~= file_paths);
            assert(nodes_view(self.nodes@) =~= (file_paths + s.images.take(0).filter(
                img_pred,
            )).map_values(|p: Seq<char>| NodeValue::File(p)));
        }
        while j < images_len
            invariant
                j <= images_len,
                images_len == s.images.len(),
                files_len == s.files.len(),
                files_len <= self.nodes@.len(),
                self.edges@.len() == 0,
                self.node_indices@.len() == self.nodes@.len(),
                nodes_view(self.nodes@) == (file_paths + s.images.take(j as int).filter(
                    img_pred,
                )).map_values(|p: Seq<char>| NodeValue::File(p)),
                pairs_view(self.node_indices@) == Seq::new(
                    (file_paths + s.images.take(j as int).filter(img_pred)).len(),
                    |k: int| ((file_paths + s.images.take(j as int).filter(img_pred))[k], k),
                ),
            decreases images_len - j,
        {
            let ghost cur = file_paths + s.images.take(j as int).filter(img_pred);
            let imgp = scanner.images[j].as_str();
            proof {
                assert(imgp@ == s.images[j as int]);
                assert(s.images.take(j + 1).drop_last() =~= s.images.take(j as int));
                assert(s.images.take(j + 1).last() == s.images[j as int]);
                assert forall|k: int| 0 <= k < files_len implies (#[trigger] pairs_view(
                    self.node_indices@,
                )[k]).0 == file_paths[k] by {}
            }
            let present = find_pair_upto(&self.node_indices, files_len, imgp);
            match present {
                Some(_) => {
                    proof {
                        let k = choose|k: int|
                            0 <= k < files_len && pairs_view(self.node_indices@)[k].0 == imgp@
                                && pairs_view(self.node_indices@)[k].0 == cur[k];
                        assert(file_paths.contains(s.images[j as int])) by {
                            let kk = choose|kk: int|
                                0 <= kk < files_len && pairs_view(self.node_indices@)[kk].0
                                    == imgp@;
                            assert(file_paths[kk] == imgp@);
                        }
                        assert(cur + s.images.take(j + 1).filter(img_pred) =~= cur + s.images.take(
                            j as int,
                        ).filter(img_pred));
                        assert(file_paths + s.images.take(j + 1).filter(img_pred) =~= cur);
                    }
                },
                None => {
                    proof {
                        assert(!file_paths.contains(s.images[j as int])) by {
                            if file_paths.contains(s.images[j as int]) {
                                let k = choose|k: int|
                                    0 <= k < file_paths.len() && file_paths[k] == s.images[j as int];
                                assert(pairs_view(self.node_indices@)[k].0 == imgp@);
                            }
                        }
                        assert(file_paths + s.images.take(j + 1).filter(img_pred) =~= cur.push(
                            s.images[j as int],
                        ));
                    }
                    let pstr = String::from_str(imgp);
                    proof {
                        assert(pstr@ == s.images[j as int]);
                    }
                    let idx = self.nodes.len();
                    let node = GraphNode::File(pstr.clone());
                    let ghost prev_nodes = self.nodes@;
                    let ghost prev_pairs = self.node_indices@;
                    proof {
                        assert(node@ == NodeValue::File(s.images[j as int]));
                        assert(nodes_view(prev_nodes.push(node)) =~= nodes_view(
                            prev_nodes,
                        ).push(node@));
                        assert(nodes_view(prev_nodes).push(node@) =~= (cur.push(
                            s.images[j as int],
                        )).map_values(|q: Seq<char>| NodeValue::File(q)));
                        assert(pairs_view(prev_pairs.push((pstr, idx))) =~= pairs_view(
                            prev_pairs,
                        ).push((pstr@, idx as int)));
                        assert(pairs_view(prev_pairs).push((pstr@, idx as int)) =~= Seq::new(
                            cur.push(s.images[j as int]).len(),
                            |k: int| (cur.push(s.images[j as int])[k], k),
                        ));
                    }
                    self.nodes.push(node);
                    self.node_indices.push((pstr, idx));
                },
            }
            j = j + 1;
        }
        proof {
            assert(s.images.take(images_len as int) =~= s.images);
            assert(nodes_view(self.nodes@) == paths.map_values(|p: Seq<char>| NodeValue::File(p)));
            assert(self.nodes@.len() == paths.len());
        }

        let n = self.nodes.len();
        let mut i: usize = 0;
        proof {
            assert(edges_view(self.edges@) =~= spec_ref_edges(s.files, paths, 0));
        }
        while i < files_len
            invariant
                i <= files_len,
                files_len == s.files.len(),
                files_len <= n,
                n == self.nodes@.len(),
                self.node_indices@.len() == n,
                nodes_view(self.nodes@) == paths.map_values(|p: Seq<char>| NodeValue::File(p)),
                pairs_view(self.node_indices@) == Seq::new(paths.len(), |k: int| (paths[k], k)),
                edges_view(self.edges@) == spec_ref_edges(s.files, paths, i as int),
                forall|e: int|
                    0 <= e < self.edges@.len() ==> (#[trigger] self.edges@[e]).0 < n
                        && self.edges@[e].1 < n,
            decreases files_len - i,
        {
            let refs_len = scanner.files[i].refs.len();
            let ghost refs = s.files[i as int].refs;
            let mut r: usize = 0;
            while r < refs_len
                invariant
                    r <= refs_len,
                    i < files_len,
                    files_len == s.files.len(),
                    files_len <= n,
                    n == self.nodes@.len(),
                    self.node_indices@.len() == n,
                    refs_len == refs.len(),
                    refs == s.files[i as int].refs,
                    nodes_view(self.nodes@) == paths.map_values(|p: Seq<char>| NodeValue::File(p)),
                    pairs_view(self.node_indices@) == Seq::new(paths.len(), |k: int| (paths[k], k)),
                    n == paths.len(),
                    edges_view(self.edges@) == spec_ref_edges(s.files, paths, i as int)
                        + spec_refs_edges(paths, i as int, refs, r as int),
                    forall|e: int|
                        0 <= e < self.edges@.len() ==> (#[trigger] self.edges@[e]).0 < n
                            && self.edges@[e].1 < n,
                decreases refs_len - r,
            {
                let target = scanner.files[i].refs[r].as_str();
                proof {
                    assert(target@ == refs[r as int]);
                }
                match find_pair_upto(&self.node_indices, n, target) {
                    Some(k) => {
                        proof {
                            assert(pairs_view(self.node_indices@)[k as int].0 == paths[k as int]);
                            let ghost tgt = refs[r as int];
                            assert forall|jj: int| 0 <= jj < k implies paths[jj] != tgt by {
                                assert(pairs_view(self.node_indices@)[jj].0 == paths[jj]);
                            }
                            lemma_find_seq_at(paths, refs[r as int], k as int);
                            assert(spec_edge_for(paths, i as int, refs[r as int]) =~= seq![
                                (i as int, k as int),
                            ]);
                            assert(edges_view(self.edges@.push((i, k))) =~= edges_view(
                                self.edges@,
                            ).push((i as int, k as int)));
                            assert(edges_view(self.edges@).push((i as int, k as int))
                                =~= spec_ref_edges(s.files, paths, i as int) + spec_refs_edges(
                                paths,
                                i as int,
                                refs,
                                r + 1,
                            ));
                        }
                        self.edges.push((i, k));
                    },
                    None => {
                        proof {
                            let ghost tgt = refs[r as int];
                            assert forall|jj: int| 0 <= jj < paths.len() implies paths[jj] != tgt by {
                                assert(pairs_view(self.node_indices@)[jj].0 == paths[jj]);
                            }
                            lemma_find_seq_none(paths, refs[r as int]);
                            assert(spec_edge_for(paths, i as int, refs[r as int])
                                =~= Seq::<(int, int)>::empty());
                            assert(edges_view(self.edges@) =~= spec_ref_edges(
                                s.files,
                                paths,
                                i as int,
                            ) + spec_refs_edges(paths, i as int, refs, r + 1));
                        }
                    },
                }
                r = r + 1;
            }
            proof {
                assert(edges_view(self.edges@) =~= spec_ref_edges(s.files, paths, i + 1));
            }
            i = i + 1;
        }
    }
}

impl TagGraph {
    /// An empty tag graph.
    pub fn new() -> (g: Self)
        ensures
            g.nodes@.len() == 0,
            g.edges@.len() == 0,
            g.file_node_indices@.len() == 0,
            g.image_node_indices@.len() == 0,
            g.tag_node_indices@.len() == 0,
    {
        TagGraph {
            nodes: Vec::new(),
            edges: Vec::new(),
            file_node_indices: Vec::new(),
            image_node_indices: Vec::new(),
            tag_node_indices: Vec::new(),
        }
    }

    /// The lookup from tagged-file path to node index.
    pub fn file_node_indices(&self) -> (r: &Vec<(String, usize)>)
        ensures
            r@ == self.file_node_indices@,
    {
        &self.file_node_indices
    }

    /// The lookup from tag name to node index.
    pub fn tag_node_indices(&self) -> (r: &Vec<(String, usize)>)
        ensures
            r@ == self.tag_node_indices@,
    {
        &self.tag_node_indices
    }

    /// Rebuild the tag graph wholesale from the scanner's facts.
    pub fn build_from_tags(&mut self, scanner: &FileScanner)
        requires
            scanner.wf(),
        ensures
            spec_built_from_tags(*final(self), scanner@),
            forall|e: int|
                0 <= e < final(self).edges@.len() ==> (#[trigger] final(self).edges@[e]).0
                    < final(self).nodes@.len() && final(self).edges@[e].1
                    < final(self).nodes@.len(),
    {
        let ghost s = scanner@;
        self.nodes = Vec::new();
        self.edges = Vec::new();
        self.file_node_indices = Vec::new();
        self.image_node_indices = Vec::new();
        self.tag_node_indices = Vec::new();

        let tags_len = scanner.tags.len();
        let mut i: usize = 0;
        proof {
            assert(nodes_view(self.nodes@) =~= s.tags.take(0).map_values(
                |t: TagFact| NodeValue::File(t.path),
            ));
            assert(pairs_view(self.file_node_indices@) =~= Seq::new(
                0,
                |k: int| (s.tags[k].path, k),
            ));
        }
        while i < tags_len
            invariant
                i <= tags_len,
                tags_len == s.tags.len(),
                self.nodes@.len() == i,
                self.edges@.len() == 0,
                self.image_node_indices@.len() == 0,
                self.tag_node_indices@.len() == 0,
                self.file_node_indices@.len() == i,
                nodes_view(self.nodes@) == s.tags.take(i as int).map_values(
                    |t: TagFact| NodeValue::File(t.path),
                ),
                pairs_view(self.file_node_indices@) == Seq::new(
                    i as nat,
                    |k: int| (s.tags[k].path, k),
                ),
            decreases tags_len - i,
        {
            let p = scanner.tags[i].path.clone();
            proof {
                assert(s.tags[i as int] == scanner.tags@[i as int]@);
                assert(p@ == s.tags[i as int].path);
            }
            let node = GraphNode::File(p.clone());
            let ghost prev_nodes = self.nodes@;
            let ghost prev_pairs = self.file_node_indices@;
            proof {
                assert(node@ == NodeValue::File(s.tags[i as int].path));
                assert(nodes_view(prev_nodes.push(node)) =~= nodes_view(prev_nodes).push(node@));
                assert(nodes_view(prev_nodes).push(node@) =~= s.tags.take(i + 1).map_values(
                    |t: TagFact| NodeValue::File(t.path),
                ));
                assert(pairs_view(prev_pairs.push((p, i))) =~= pairs_view(prev_pairs).push(
                    (p@, i as int),
                ));
                assert(pairs_view(prev_pairs).push((p@, i as int)) =~= Seq::new(
                    (i + 1) as nat,
                    |k: int| (s.tags[k].path, k),
                ));
            }
            self.nodes.push(node);
            self.file_node_indices.push((p, i));
            i = i + 1;
        }
        proof {
            assert(s.tags.take(tags_len as int) =~= s.tags);
        }

        let images_len = scanner.images.len();
        let mut j: usize = 0;
        proof {
            assert(nodes_view(self.nodes@) =~= s.tags.map_values(
                |t: TagFact| NodeValue::File(t.path),
            ) + s.images.take(0).map_values(|p: Seq<char>| NodeValue::File(p)));
            assert(pairs_view(self.image_node_indices@) =~= Seq::new(
                0,
                |k: int| (s.images[k], s.tags.len() + k),
            ));
        }
        while j < images_len
            invariant
                j <= images_len,
                images_len == s.images.len(),
                tags_len == s.tags.len(),
                self.nodes@.len() == tags_len + j,
                self.edges@.len() == 0,
                self.tag_node_indices@.len() == 0,
                self.file_node_indices@.len() == tags_len,
                self.image_node_indices@.len() == j,
                nodes_view(self.nodes@) == s.tags.map_values(|t: TagFact| NodeValue::File(t.path))
                    + s.images.take(j as int).map_values(|p: Seq<char>| NodeValue::File(p)),
                pairs_view(self.file_node_indices@) == Seq::new(
                    tags_len as nat,
                    |k: int| (s.tags[k].path, k),
                ),
                pairs_view(self.image_node_indices@) == Seq::new(
                    j as nat,
                    |k: int| (s.images[k], s.tags.len() + k),
                ),
            decreases images_len - j,
        {
            let p = scanner.images[j].clone();
            proof {
                assert(p@ == s.images[j as int]);
            }
            let idx = self.nodes.len();
            let node = GraphNode::File(p.clone());
            let ghost prev_nodes = self.nodes@;
            let ghost prev_pairs = self.image_node_indices@;
            proof {
                assert(node@ == NodeValue::File(s.images[j as int]));
                assert(nodes_view(prev_nodes.push(node)) =~= nodes_view(prev_nodes).push(node@));
                assert(nodes_view(prev_nodes).push(node@) =~= s.tags.map_values(
                    |t: TagFact| NodeValue::File(t.path),
                ) + s.images.take(j + 1).map_values(|q: Seq<char>| NodeValue::File(q)));
                assert(pairs_view(prev_pairs.push((p, idx))) =~= pairs_view(prev_pairs).push(
                    (p@, idx as int),
                ));
                assert(pairs_view(prev_pairs).push((p@, idx as int)) =~= Seq::new(
                    (j + 1) as nat,
                    |k: int| (s.images[k], s.tags.len() + k),
                ));
            }
            self.nodes.push(node);
            self.image_node_indices.push((p, idx));
            j = j + 1;
        }
        proof {
            assert(s.images.take(images_len as int) =~= s.images);
            assert(nodes_view(self.nodes@) =~= spec_tag_initial(s).nodes);
            assert(edges_view(self.edges@) =~= spec_tag_initial(s).edges);
            assert(pairs_view(self.tag_node_indices@) =~= spec_tag_initial(s).tag_ids);
        }

        let mut i: usize = 0;
        while i < tags_len
            invariant
                i <= tags_len,
                tags_len == s.tags.len(),
                self.file_node_indices@.len() == tags_len,
                self.image_node_indices@.len() == s.images.len(),
                pairs_view(self.file_node_indices@) == Seq::new(
                    tags_len as nat,
                    |k: int| (s.tags[k].path, k),
                ),
                pairs_view(self.image_node_indices@) == Seq::new(
                    s.images.len(),
                    |k: int| (s.images[k], s.tags.len() + k),
                ),
                nodes_view(self.nodes@) == spec_tag_fold(s, i as int).nodes,
                edges_view(self.edges@) == spec_tag_fold(s, i as int).edges,
                pairs_view(self.tag_node_indices@) == spec_tag_fold(s, i as int).tag_ids,
                self.nodes@.len() >= tags_len + s.images.len(),
                forall|e: int|
                    0 <= e < self.edges@.len() ==> (#[trigger] self.edges@[e]).0
                        < self.nodes@.len() && self.edges@[e].1 < self.nodes@.len(),
                forall|t: int|
                    0 <= t < self.tag_node_indices@.len() ==> 0 <= (#[trigger] pairs_view(
                        self.tag_node_indices@,
                    )[t]).1 < self.nodes@.len(),
            decreases tags_len - i,
        {
            let ghost acc0 = spec_tag_fold(s, i as int);
            let ghost tags_i = s.tags[i as int].tags;
            let file_tag_count = scanner.tags[i].tags.len();
            let mut t: usize = 0;
            while t < file_tag_count
                invariant
                    t <= file_tag_count,
                    i < tags_len,
                    tags_len == s.tags.len(),
                    file_tag_count == tags_i.len(),
                    tags_i == s.tags[i as int].tags,
                    self.file_node_indices@.len() == tags_len,
                    self.image_node_indices@.len() == s.images.len(),
                    pairs_view(self.file_node_indices@) == Seq::new(
                        tags_len as nat,
                        |k: int| (s.tags[k].path, k),
                    ),
                    pairs_view(self.image_node_indices@) == Seq::new(
                        s.images.len(),
                        |k: int| (s.images[k], s.tags.len() + k),
                    ),
                    nodes_view(self.nodes@) == spec_tag_fold_tags(
                        acc0,
                        i as int,
                        tags_i,
                        t as int,
                    ).nodes,
                    edges_view(self.edges@) == spec_tag_fold_tags(
                        acc0,
                        i as int,
                        tags_i,
                        t as int,
                    ).edges,
                    pairs_view(self.tag_node_indices@) == spec_tag_fold_tags(
                        acc0,
                        i as int,
                        tags_i,
                        t as int,
                    ).tag_ids,
                    self.nodes@.len() >= tags_len + s.images.len(),
                    forall|e: int|
                        0 <= e < self.edges@.len() ==> (#[trigger] self.edges@[e]).0
                            < self.nodes@.len() && self.edges@[e].1 < self.nodes@.len(),
                    forall|tt: int|
                        0 <= tt < self.tag_node_indices@.len() ==> 0 <= (#[trigger] pairs_view(
                            self.tag_node_indices@,
                        )[tt]).1 < self.nodes@.len(),
                decreases file_tag_count - t,
            {
                let ghost acc = spec_tag_fold_tags(acc0, i as int, tags_i, t as int);
                let tag = scanner.tags[i].tags[t].as_str();
                proof {
                    assert(s.tags[i as int] == scanner.tags@[i as int]@);
                    assert(tag@ == tags_i[t as int]);
                }
                let tag_count = self.tag_node_indices.len();
                match find_pair_upto(&self.tag_node_indices, tag_count, tag) {
                    Some(k) => {
                        let idx = self.tag_node_indices[k].1;
                        proof {
                            lemma_find_pair_at(pairs_view(self.tag_node_indices@), tag@, k as int);
                            assert(spec_find_pair(acc.tag_ids, tags_i[t as int]) == Some(
                                idx as int,
                            ));
                            assert(edges_view(self.edges@.push((idx, i))) =~= edges_view(
                                self.edges@,
                            ).push((idx as int, i as int)));
                            assert(spec_tag_fold_tags(acc0, i as int, tags_i, t + 1)
                                == spec_tag_step(acc, i as int, tags_i[t as int]));
                        }
                        self.edges.push((idx, i));
                    },
                    None => {
                        proof {
                            lemma_find_pair_none(pairs_view(self.tag_node_indices@), tag@);
                            assert(spec_find_pair(acc.tag_ids, tags_i[t as int]) is None);
                            assert(spec_tag_fold_tags(acc0, i as int, tags_i, t + 1)
                                == spec_tag_step(acc, i as int, tags_i[t as int]));
                        }
                        let tstr = String::from_str(tag);
                        let idx = self.nodes.len();
                        let node = GraphNode::Tag(tstr.clone());
                        let ghost prev_nodes = self.nodes@;
                        let ghost prev_edges = self.edges@;
                        let ghost prev_pairs = self.tag_node_indices@;
                        proof {
                            assert(node@ == NodeValue::Tag(tags_i[t as int]));
                            assert(nodes_view(prev_nodes.push(node)) =~= nodes_view(
                                prev_nodes,
                            ).push(node@));
                            assert(nodes_view(prev_nodes).push(node@) =~= acc.nodes.push(
                                NodeValue::Tag(tags_i[t as int]),
                            ));
                            assert(edges_view(prev_edges.push((idx, i))) =~= edges_view(
                                prev_edges,
                            ).push((idx as int, i as int)));
                            assert(edges_view(prev_edges).push((idx as int, i as int))
                                =~= acc.edges.push((acc.nodes.len() as int, i as int)));
                            assert(pairs_view(prev_pairs.push((tstr, idx))) =~= pairs_view(
                                prev_pairs,
                            ).push((tstr@, idx as int)));
                            assert(pairs_view(prev_pairs).push((tstr@, idx as int))
                                =~= acc.tag_ids.push((tags_i[t as int], acc.nodes.len() as int)));
                        }
                        self.nodes.push(node);
                        self.edges.push((idx, i));
                        self.tag_node_indices.push((tstr, idx));
                    },
                }
                t = t + 1;
            }
            proof {
                assert(spec_tag_fold(s, i + 1) == spec_tag_fold_tags(
                    acc0,
                    i as int,
                    tags_i,
                    tags_i.len() as int,
                ));
            }
            i = i + 1;
        }
    }
}

/// Every scanned file is a node of the reference graph, at the slot of its
/// record, whether or not it has outbound references.
pub proof fn lemma_every_scanned_file_is_a_node(g: FileGraph, s: ScanFacts, i: int)
    requires
        spec_built_from_scanner(g, s),
        0 <= i < s.files.len(),
    ensures
        i < nodes_view(g.nodes@).len(),
        nodes_view(g.nodes@)[i] == NodeValue::File(s.files[i].path),
{
    let file_paths = s.files.map_values(|f: FileFact| f.path);
    assert(spec_ref_node_paths(s)[i] == file_paths[i]);
}

proof fn lemma_tag_fold_tags_only_adds_tags(acc: TagBuild, file_idx: int, tags: Seq<Seq<char>>, j: int)
    ensures
        acc.nodes.len() <= spec_tag_fold_tags(acc, file_idx, tags, j).nodes.len(),
        forall|k: int|
            0 <= k < acc.nodes.len() ==> #[trigger] spec_tag_fold_tags(
                acc,
                file_idx,
                tags,
                j,
            ).nodes[k] == acc.nodes[k],
        forall|k: int|
            acc.nodes.len() <= k < spec_tag_fold_tags(acc, file_idx, tags, j).nodes.len()
                ==> #[trigger] spec_tag_fold_tags(acc, file_idx, tags, j).nodes[k] is Tag,
    decreases j,
{
    if j > 0 {
        lemma_tag_fold_tags_only_adds_tags(acc, file_idx, tags, j - 1);
    }
}

proof fn lemma_tag_fold_only_adds_tags(s: ScanFacts, i: int)
    ensures
        spec_tag_initial(s).nodes.len() <= spec_tag_fold(s, i).nodes.len(),
        forall|k: int|
            0 <= k < spec_tag_initial(s).nodes.len() ==> #[trigger] spec_tag_fold(s, i).nodes[k]
                == spec_tag_initial(s).nodes[k],
        forall|k: int|
            spec_tag_initial(s).nodes.len() <= k < spec_tag_fold(s, i).nodes.len()
                ==> #[trigger] spec_tag_fold(s, i).nodes[k] is Tag,
    decreases i,
{
    if i > 0 {
        lemma_tag_fold_only_adds_tags(s, i - 1);
        lemma_tag_fold_tags_only_adds_tags(
            spec_tag_fold(s, i - 1),
            i - 1,
            s.tags[i - 1].tags,
            s.tags[i - 1].tags.len() as int,
        );
    }
}

/// A file that no tag record names and that is not an image has no node in
/// the tag graph: untagged files are absent from this view entirely.
pub proof fn lemma_untagged_file_absent_from_tag_graph(g: TagGraph, s: ScanFacts, p: Seq<char>)
    requires
        spec_built_from_tags(g, s),
        forall|k: int| 0 <= k < s.tags.len() ==> (#[trigger] s.tags[k]).path != p,
        !s.images.contains(p),
    ensures
        forall|k: int|
            0 <= k < nodes_view(g.nodes@).len() ==> #[trigger] nodes_view(g.nodes@)[k]
                != NodeValue::File(p),
{
    lemma_tag_fold_only_adds_tags(s, s.tags.len() as int);
    let init = spec_tag_initial(s).nodes;
    let nodes = nodes_view(g.nodes@);
    assert forall|k: int| 0 <= k < nodes.len() implies #[trigger] nodes[k] != NodeValue::File(
        p,
    ) by {
        if k < s.tags.len() {
            assert(init[k] == NodeValue::File(s.tags[k].path));
        } else if k < init.len() {
            assert(init[k] == NodeValue::File(s.images[k - s.tags.len()]));
            assert(s.images[k - s.tags.len()] != p);
        }
    }
}

/// Rebuilding the reference graph from unchanged scanner facts yields the
/// same nodes, the same index lookup and the same edges: the build is a
/// pure, idempotent function of the facts.
pub proof fn lemma_reference_build_idempotent(g1: FileGraph, g2: FileGraph, s: ScanFacts)
    requires
        spec_built_from_scanner(g1, s),
        spec_built_from_scanner(g2, s),
    ensures
        nodes_view(g1.nodes@) == nodes_view(g2.nodes@),
        edges_view(g1.edges@) == edges_view(g2.edges@),
        pairs_view(g1.node_indices@) == pairs_view(g2.node_indices@),
{
}

/// Rebuilding the tag graph from unchanged scanner facts yields the same
/// nodes, the same lookups and the same edges.
pub proof fn lemma_tag_build_idempotent(g1: TagGraph, g2: TagGraph, s: ScanFacts)
    requires
        spec_built_from_tags(g1, s),
        spec_built_from_tags(g2, s),
    ensures
        nodes_view(g1.nodes@) == nodes_view(g2.nodes@),
        edges_view(g1.edges@) == edges_view(g2.edges@),
        pairs_view(g1.file_node_indices@) == pairs_view(g2.file_node_indices@),
        pairs_view(g1.image_node_indices@) == pairs_view(g2.image_node_indices@),
        pairs_view(g1.tag_node_indices@) == pairs_view(g2.tag_node_indices@),
{
}

} // verus!
