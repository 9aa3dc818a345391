//! Scanner state: the per-file facts a traversal gathers.
//!
//! The scanner itself does no directory or file I/O; a driver walks the tree,
//! reads each file, and feeds entries in here. The state keeps three facts:
//! per-file outbound references (raw until [`FileScanner::resolve_references`]
//! is called), the set of image paths, and per-file tags. A rescan of a
//! subtree first clears every fact under it ([`FileScanner::begin_scan`]) and
//! then rediscovers them, so each scanned file has exactly one record.

#![verifier::loop_isolation(false)]

use vstd::prelude::*;
use vstd::string::*;
use crate::parse;
use crate::parse::views_of;
use crate::paths;

verus! {

/// The mathematical content of one file's reference record.
pub struct FileFact {
    pub path: Seq<char>,
    pub refs: Seq<Seq<char>>,
}

/// The mathematical content of one file's tag record.
pub struct TagFact {
    pub path: Seq<char>,
    pub tags: Seq<Seq<char>>,
}

/// The mathematical content of the whole scanner state.
pub struct ScanFacts {
    pub root: Seq<char>,
    pub base: Seq<char>,
    pub show_hidden: bool,
    pub files: Seq<FileFact>,
    pub images: Seq<Seq<char>>,
    pub tags: Seq<TagFact>,
}

/// One file's outbound references, as scanned.
pub struct FileRecord {
    pub path: String,
    pub refs: Vec<String>,
}

impl View for FileRecord {
    type V = FileFact;

    open spec fn view(&self) -> FileFact {
        FileFact { path: self.path@, refs: views_of(self.refs@) }
    }
}

/// One file's tags, as scanned.
pub struct TagRecord {
    pub path: String,
    pub tags: Vec<String>,
}

impl View for TagRecord {
    type V = TagFact;

    open spec fn view(&self) -> TagFact {
        TagFact { path: self.path@, tags: views_of(self.tags@) }
    }
}

pub open spec fn files_view(v: Seq<FileRecord>) -> Seq<FileFact> {
    v.map_values(|r: FileRecord| r@)
}

pub open spec fn tags_view(v: Seq<TagRecord>) -> Seq<TagFact> {
    v.map_values(|r: TagRecord| r@)
}

/// The first record for path `p`, if any.
pub open spec fn spec_find_file(files: Seq<FileFact>, p: Seq<char>) -> Option<int>
    decreases files.len(),
{
    if files.len() == 0 {
        None
    } else if files[0].path == p {
        Some(0)
    } else {
        match spec_find_file(files.skip(1), p) {
            None => None,
            Some(i) => Some(i + 1),
        }
    }
}

/// The first tag record for path `p`, if any.
pub open spec fn spec_find_tags(tags: Seq<TagFact>, p: Seq<char>) -> Option<int>
    decreases tags.len(),
{
    if tags.len() == 0 {
        None
    } else if tags[0].path == p {
        Some(0)
    } else {
        match spec_find_tags(tags.skip(1), p) {
            None => None,
            Some(i) => Some(i + 1),
        }
    }
}

/// `files` with the record for `f.path` replaced by `f`, or `f` appended.
pub open spec fn spec_upsert_file(files: Seq<FileFact>, f: FileFact) -> Seq<FileFact> {
    match spec_find_file(files, f.path) {
        Some(i) => files.update(i, f),
        None => files.push(f),
    }
}

/// `tags` with the record for `t.path` replaced by `t`, or `t` appended.
pub open spec fn spec_upsert_tags(tags: Seq<TagFact>, t: TagFact) -> Seq<TagFact> {
    match spec_find_tags(tags, t.path) {
        Some(i) => tags.update(i, t),
        None => tags.push(t),
    }
}

/// `images` with `p` appended unless already present.
pub open spec fn spec_add_image(images: Seq<Seq<char>>, p: Seq<char>) -> Seq<Seq<char>> {
    if images.contains(p) {
        images
    } else {
        images.push(p)
    }
}

/// Keep the file records outside the subtree at `base`.
pub open spec fn file_outside(base: Seq<char>) -> spec_fn(FileFact) -> bool {
    |f: FileFact| !paths::spec_in_subtree(f.path, base)
}

/// Keep the tag records outside the subtree at `base`.
pub open spec fn tag_outside(base: Seq<char>) -> spec_fn(TagFact) -> bool {
    |t: TagFact| !paths::spec_in_subtree(t.path, base)
}

/// Keep the image paths outside the subtree at `base`.
pub open spec fn image_outside(base: Seq<char>) -> spec_fn(Seq<char>) -> bool {
    |p: Seq<char>| !paths::spec_in_subtree(p, base)
}

/// Keep the tag records whose path is not `p`.
pub open spec fn tag_path_ne(p: Seq<char>) -> spec_fn(TagFact) -> bool {
    |t: TagFact| t.path != p
}

/// Each raw target of `refs` resolved against the directory `base`.
pub open spec fn spec_resolve_refs(base: Seq<char>, refs: Seq<Seq<char>>) -> Seq<Seq<char>> {
    refs.map_values(|t: Seq<char>| paths::spec_resolve(base, t))
}

pub open spec fn distinct_file_paths(files: Seq<FileFact>) -> bool {
    forall|a: int, b: int| 0 <= a < b < files.len() ==> files[a].path != files[b].path
}

pub open spec fn distinct_tag_paths(tags: Seq<TagFact>) -> bool {
    forall|a: int, b: int| 0 <= a < b < tags.len() ==> tags[a].path != tags[b].path
}

pub open spec fn distinct_seqs(v: Seq<Seq<char>>) -> bool {
    forall|a: int, b: int| 0 <= a < b < v.len() ==> v[a] != v[b]
}

proof fn lemma_find_file_at(v: Seq<FileFact>, p: Seq<char>, k: int)
    requires
        0 <= k < v.len(),
        v[k].path == p,
        forall|j: int| 0 <= j < k ==> v[j].path != p,
    ensures
        spec_find_file(v, p) == Some(k),
    decreases v.len(),
{
    if k > 0 {
        lemma_find_file_at(v.skip(1), p, k - 1);
    }
}

proof fn lemma_find_file_none(v: Seq<FileFact>, p: Seq<char>)
    requires
        forall|j: int| 0 <= j < v.len() ==> v[j].path != p,
    ensures
        spec_find_file(v, p) is None,
    decreases v.len(),
{
    if v.len() > 0 {
        lemma_find_file_none(v.skip(1), p);
    }
}

proof fn lemma_find_tags_at(v: Seq<TagFact>, p: Seq<char>, k: int)
    requires
        0 <= k < v.len(),
        v[k].path == p,
        forall|j: int| 0 <= j < k ==> v[j].path != p,
    ensures
        spec_find_tags(v, p) == Some(k),
    decreases v.len(),
{
    if k > 0 {
        lemma_find_tags_at(v.skip(1), p, k - 1);
    }
}

proof fn lemma_find_tags_none(v: Seq<TagFact>, p: Seq<char>)
    requires
        forall|j: int| 0 <= j < v.len() ==> v[j].path != p,
    ensures
        spec_find_tags(v, p) is None,
    decreases v.len(),
{
    if v.len() > 0 {
        lemma_find_tags_none(v.skip(1), p);
    }
}

/// Every element of a filtered sequence is an element of the unfiltered one.
proof fn lemma_filter_subset<A>(s: Seq<A>, pred: spec_fn(A) -> bool)
    ensures
        forall|i: int| 0 <= i < s.filter(pred).len() ==> s.contains(#[trigger] s.filter(pred)[i]),
    decreases s.len(),
{
    reveal(Seq::filter);
    if s.len() > 0 {
        lemma_filter_subset(s.drop_last(), pred);
        assert forall|i: int| 0 <= i < s.filter(pred).len() implies s.contains(
            #[trigger] s.filter(pred)[i],
        ) by {
            let dlf = s.drop_last().filter(pred);
            if i < dlf.len() {
                let x = dlf[i];
                let k = choose|k: int| 0 <= k < s.drop_last().len() && s.drop_last()[k] == x;
                assert(s[k] == x);
            } else {
                assert(s.filter(pred)[i] == s.last());
                assert(s[s.len() - 1] == s.last());
            }
        }
    }
}

/// Filtering keeps keys pairwise distinct.
proof fn lemma_filter_distinct_by<A>(s: Seq<A>, pred: spec_fn(A) -> bool, key: spec_fn(A) -> Seq<char>)
    requires
        forall|a: int, b: int| 0 <= a < b < s.len() ==> key(s[a]) != key(s[b]),
    ensures
        forall|a: int, b: int|
            0 <= a < b < s.filter(pred).len() ==> key(#[trigger] s.filter(pred)[a]) != key(
                #[trigger] s.filter(pred)[b],
            ),
    decreases s.len(),
{
    reveal(Seq::filter);
    if s.len() > 0 {
        lemma_filter_distinct_by(s.drop_last(), pred, key);
        lemma_filter_subset(s.drop_last(), pred);
        let f = s.filter(pred);
        let dlf = s.drop_last().filter(pred);
        assert forall|a: int, b: int| 0 <= a < b < f.len() implies key(#[trigger] f[a]) != key(
            #[trigger] f[b],
        ) by {
            if b < dlf.len() {
            } else if pred(s.last()) && b == dlf.len() {
                assert(f[b] == s.last());
                let x = dlf[a];
                let k = choose|k: int| 0 <= k < s.drop_last().len() && s.drop_last()[k] == x;
                assert(s[k] == x);
                assert(key(s[k]) != key(s[s.len() - 1]));
            }
        }
    }
}

/// The scanner: holds the facts; a driver feeds it entries and contents.
pub struct FileScanner {
    pub root_path: String,
    pub current_scan_path: String,
    pub show_hidden: bool,
    pub files: Vec<FileRecord>,
    pub images: Vec<String>,
    pub tags: Vec<TagRecord>,
}

impl View for FileScanner {
    type V = ScanFacts;

    open spec fn view(&self) -> ScanFacts {
        ScanFacts {
            root: self.root_path@,
            base: self.current_scan_path@,
            show_hidden: self.show_hidden,
            files: files_view(self.files@),
            images: views_of(self.images@),
            tags: tags_view(self.tags@),
        }
    }
}

impl FileScanner {
    /// Each file has at most one record of either kind, images are listed
    /// once, and a tag record always holds at least one tag.
    pub open spec fn wf(&self) -> bool {
        &&& distinct_file_paths(self@.files)
        &&& distinct_tag_paths(self@.tags)
        &&& distinct_seqs(self@.images)
        &&& forall|i: int| 0 <= i < self@.tags.len() ==> self@.tags[i].tags.len() > 0
    }

    /// A scanner rooted at `root_path`, with no facts and hidden files
    /// excluded.
    pub fn new(root_path: String) -> (s: Self)
        ensures
            s@.root == root_path@,
            s@.base == root_path@,
            !s@.show_hidden,
            s@.files =~= Seq::<FileFact>::empty(),
            s@.images =~= Seq::<Seq<char>>::empty(),
            s@.tags =~= Seq::<TagFact>::empty(),
            s.wf(),
    {
        let current = root_path.clone();
        let s = FileScanner {
            root_path,
            current_scan_path: current,
            show_hidden: false,
            files: Vec::new(),
            images: Vec::new(),
            tags: Vec::new(),
        };
        proof {
            assert(s@.files =~= Seq::<FileFact>::empty());
            assert(s@.images =~= Seq::<Seq<char>>::empty());
            assert(s@.tags =~= Seq::<TagFact>::empty());
        }
        s
    }

    /// Choose whether hidden entries are scanned.
    pub fn set_show_hidden(&mut self, show: bool)
        ensures
            final(self)@ == (ScanFacts { show_hidden: show, ..old(self)@ }),
            old(self).wf() ==> final(self).wf(),
    {
        self.show_hidden = show;
    }

    /// The root path the scanner was created with.
    pub fn root_path(&self) -> (r: &String)
        ensures
            r@ == self@.root,
    {
        &self.root_path
    }

    /// Whether hidden entries are currently scanned.
    pub fn show_hidden(&self) -> (r: bool)
        ensures
            r == self@.show_hidden,
    {
        self.show_hidden
    }

    /// Whether a traversal must skip the directory entry named `name`
    /// entirely (it is hidden and hidden entries are excluded).
    pub fn should_skip_entry(&self, name: &str) -> (r: bool)
        ensures
            r == (!self@.show_hidden && paths::spec_is_hidden_name(name@)),
    {
        !self.show_hidden && paths::is_hidden_name(name)
    }

    /// Start a scan of the subtree at `path`: clear every fact under it and
    /// remember `path` as the base that relative references resolve against.
    pub fn begin_scan(&mut self, path: &str)
        requires
            old(self).wf(),
        ensures
            final(self).wf(),
            final(self)@.root == old(self)@.root,
            final(self)@.show_hidden == old(self)@.show_hidden,
            final(self)@.base == path@,
            final(self)@.files == old(self)@.files.filter(file_outside(path@)),
            final(self)@.images == old(self)@.images.filter(image_outside(path@)),
            final(self)@.tags == old(self)@.tags.filter(tag_outside(path@)),
    {
        proof {
            reveal(Seq::filter);
        }
        let ghost old_files = files_view(self.files@);
        let mut kept_files: Vec<FileRecord> = Vec::new();
        let mut i: usize = 0;
        proof {
            assert(files_view(kept_files@) =~= old_files.take(0).filter(file_outside(path@)));
        }
        while i < self.files.len()
            invariant
                i <= self.files@.len(),
                old_files == files_view(self.files@),
                files_view(kept_files@) == old_files.take(i as int).filter(file_outside(path@)),
            decreases self.files@.len() - i,
        {
            let keep = !paths::in_subtree(self.files[i].path.as_str(), path);
            proof {
                reveal(Seq::filter);
                assert(old_files.take(i + 1).drop_last() =~= old_files.take(i as int));
                assert(old_files.take(i + 1).last() == old_files[i as int]);
            }
            if keep {
                let rec = FileRecord {
                    path: self.files[i].path.clone(),
                    refs: self.files[i].refs.clone(),
                };
                proof {
                    assert(rec@ == old_files[i as int]) by {
                        assert(views_of(rec.refs@) =~= views_of(self.files@[i as int].refs@));
                    }
                    assert(files_view(kept_files@.push(rec)) =~= files_view(kept_files@).push(
                        rec@,
                    ));
                }
                kept_files.push(rec);
            }
            i = i + 1;
        }
        proof {
            assert(old_files.take(old_files.len() as int) =~= old_files);
        }
        self.files = kept_files;

        let ghost old_images = views_of(self.images@);
        let mut kept_images: Vec<String> = Vec::new();
        let mut i: usize = 0;
        proof {
            assert(views_of(kept_images@) =~= old_images.take(0).filter(image_outside(path@)));
        }
        while i < self.images.len()
            invariant
                i <= self.images@.len(),
                old_images == views_of(self.images@),
                views_of(kept_images@) == old_images.take(i as int).filter(image_outside(path@)),
            decreases self.images@.len() - i,
        {
            let keep = !paths::in_subtree(self.images[i].as_str(), path);
            proof {
                reveal(Seq::filter);
                assert(old_images.take(i + 1).drop_last() =~= old_images.take(i as int));
                assert(old_images.take(i + 1).last() == old_images[i as int]);
            }
            if keep {
                let im = self.images[i].clone();
                proof {
                    assert(views_of(kept_images@.push(im)) =~= views_of(kept_images@).push(im@));
                }
                kept_images.push(im);
            }
            i = i + 1;
        }
        proof {
            assert(old_images.take(old_images.len() as int) =~= old_images);
        }
        self.images = kept_images;

        let ghost old_tags = tags_view(self.tags@);
        let mut kept_tags: Vec<TagRecord> = Vec::new();
        let mut i: usize = 0;
        proof {
            assert(tags_view(kept_tags@) =~= old_tags.take(0).filter(tag_outside(path@)));
        }
        while i < self.tags.len()
            invariant
                i <= self.tags@.len(),
                old_tags == tags_view(self.tags@),
                tags_view(kept_tags@) == old_tags.take(i as int).filter(tag_outside(path@)),
            decreases self.tags@.len() - i,
        {
            let keep = !paths::in_subtree(self.tags[i].path.as_str(), path);
            proof {
                reveal(Seq::filter);
                assert(old_tags.take(i + 1).drop_last() =~= old_tags.take(i as int));
                assert(old_tags.take(i + 1).last() == old_tags[i as int]);
            }
            if keep {
                let rec = TagRecord {
                    path: self.tags[i].path.clone(),
                    tags: self.tags[i].tags.clone(),
                };
                proof {
                    assert(rec@ == old_tags[i as int]) by {
                        assert(views_of(rec.tags@) =~= views_of(self.tags@[i as int].tags@));
                    }
                    assert(tags_view(kept_tags@.push(rec)) =~= tags_view(kept_tags@).push(rec@));
                }
                kept_tags.push(rec);
            }
            i = i + 1;
        }
        proof {
            assert(old_tags.take(old_tags.len() as int) =~= old_tags);
        }
        self.tags = kept_tags;

        self.current_scan_path = String::from_str(path);
        proof {
            lemma_filter_distinct_by(old_files, file_outside(path@), |f: FileFact| f.path);
            lemma_filter_distinct_by(old_images, image_outside(path@), |p: Seq<char>| p);
            lemma_filter_distinct_by(old_tags, tag_outside(path@), |t: TagFact| t.path);
            lemma_filter_subset(old_tags, tag_outside(path@));
            assert forall|i: int| 0 <= i < self@.tags.len() implies self@.tags[i].tags.len()
                > 0 by {
                let x = self@.tags[i];
                let k = choose|k: int| 0 <= k < old_tags.len() && old_tags[k] == x;
            }
        }
    }

    /// Record one visited file. An image path gets a reference record with
    /// no targets and joins the image set; other files are parsed for
    /// references and tags when their content was readable as text
    /// (`content` is `Some`), and are skipped silently otherwise.
    pub fn record_file(&mut self, path: &str, content: Option<&str>)
        requires
            old(self).wf(),
        ensures
            final(self).wf(),
            final(self)@.root == old(self)@.root,
            final(self)@.base == old(self)@.base,
            final(self)@.show_hidden == old(self)@.show_hidden,
            paths::spec_is_image_path(path@) ==> {
                &&& final(self)@.files == spec_upsert_file(
                    old(self)@.files,
                    (FileFact { path: path@, refs: Seq::empty() }),
                )
                &&& final(self)@.images == spec_add_image(old(self)@.images, path@)
                &&& final(self)@.tags == old(self)@.tags
            },
            !paths::spec_is_image_path(path@) ==> match content {
                Some(text) => {
                    &&& final(self)@.files == spec_upsert_file(
                        old(self)@.files,
                        (FileFact { path: path@, refs: parse::spec_references(text@) }),
                    )
                    &&& final(self)@.images == old(self)@.images
                    &&& final(self)@.tags == (if parse::spec_tags(text@).len() > 0 {
                        spec_upsert_tags(
                            old(self)@.tags,
                            (TagFact { path: path@, tags: parse::spec_tags(text@) }),
                        )
                    } else {
                        old(self)@.tags.filter(tag_path_ne(path@))
                    })
                },
                None => final(self)@ == old(self)@,
            },
    {
        if paths::is_image_path(path) {
            let empty_refs: Vec<String> = Vec::new();
            proof {
                assert(views_of(empty_refs@) =~= Seq::<Seq<char>>::empty());
            }
            self.upsert_file_record(path, empty_refs);
            self.add_image(path);
        } else {
            match content {
                Some(text) => {
                    let refs = parse::extract_references(text);
                    self.upsert_file_record(path, refs);
                    let tags = parse::extract_tags(text);
                    if tags.len() > 0 {
                        self.upsert_tag_record(path, tags);
                    } else {
                        self.remove_tag_record(path);
                    }
                },
                None => {},
            }
        }
    }

    /// Resolve every raw reference against the base directory of the scan:
    /// absolute targets are kept, relative ones are joined below the base.
    pub fn resolve_references(&mut self)
        requires
            old(self).wf(),
        ensures
            final(self).wf(),
            final(self)@.root == old(self)@.root,
            final(self)@.base == old(self)@.base,
            final(self)@.show_hidden == old(self)@.show_hidden,
            final(self)@.images == old(self)@.images,
            final(self)@.tags == old(self)@.tags,
            final(self)@.files.len() == old(self)@.files.len(),
            forall|i: int|
                0 <= i < old(self)@.files.len() ==> {
                    &&& (#[trigger] final(self)@.files[i]).path == old(self)@.files[i].path
                    &&& final(self)@.files[i].refs == spec_resolve_refs(
                        old(self)@.base,
                        old(self)@.files[i].refs,
                    )
                },
    {
        let ghost old_files = files_view(self.files@);
        let ghost base = self.current_scan_path@;
        let mut out: Vec<FileRecord> = Vec::new();
        let mut i: usize = 0;
        while i < self.files.len()
            invariant
                i <= self.files@.len(),
                old_files == files_view(self.files@),
                base == self.current_scan_path@,
                out@.len() == i,
                forall|k: int|
                    0 <= k < i ==> {
                        &&& (#[trigger] out@[k])@.path == old_files[k].path
                        &&& out@[k]@.refs == spec_resolve_refs(base, old_files[k].refs)
                    },
            decreases self.files@.len() - i,
        {
            let ghost old_refs = views_of(self.files@[i as int].refs@);
            let mut resolved: Vec<String> = Vec::new();
            let mut j: usize = 0;
            while j < self.files[i].refs.len()
                invariant
                    i < self.files@.len(),
                    j <= self.files@[i as int].refs@.len(),
                    old_refs == views_of(self.files@[i as int].refs@),
                    base == self.current_scan_path@,
                    views_of(resolved@) == spec_resolve_refs(base, old_refs.take(j as int)),
                decreases self.files@[i as int].refs@.len() - j,
            {
                let r = paths::resolve(
                    self.current_scan_path.as_str(),
                    self.files[i].refs[j].as_str(),
                );
                proof {
                    assert(views_of(resolved@.push(r)) =~= views_of(resolved@).push(r@));
                    assert(spec_resolve_refs(base, old_refs.take(j + 1)) =~= spec_resolve_refs(
                        base,
                        old_refs.take(j as int),
                    ).push(paths::spec_resolve(base, old_refs[j as int])));
                }
                resolved.push(r);
                j = j + 1;
            }
            proof {
                assert(old_refs.take(old_refs.len() as int) =~= old_refs);
            }
            let rec = FileRecord { path: self.files[i].path.clone(), refs: resolved };
            out.push(rec);
            i = i + 1;
        }
        self.files = out;
        proof {
            assert(files_view(self.files@).len() == old_files.len());
            assert forall|a: int, b: int|
                0 <= a < b < files_view(self.files@).len() implies files_view(
                self.files@,
            )[a].path != files_view(self.files@)[b].path by {
                assert(files_view(self.files@)[a].path == old_files[a].path);
                assert(files_view(self.files@)[b].path == old_files[b].path);
            }
        }
    }


    /// The index of the reference record for `path`, if any.
    fn find_file_index(files: &Vec<FileRecord>, path: &str) -> (r: Option<usize>)
        ensures
            match r {
                Some(i) => i < files@.len() && files_view(files@)[i as int].path == path@
                    && (forall|j: int|
                    0 <= j < i ==> (#[trigger] files_view(files@)[j]).path != path@),
                None => forall|j: int|
                    0 <= j < files@.len() ==> (#[trigger] files_view(files@)[j]).path != path@,
            },
    {
        let mut i: usize = 0;
        while i < files.len()
            invariant
                i <= files@.len(),
                forall|j: int| 0 <= j < i ==> (#[trigger] files_view(files@)[j]).path != path@,
            decreases files@.len() - i,
        {
            if paths::str_eq(files[i].path.as_str(), path) {
                return Some(i);
            }
            i = i + 1;
        }
        None
    }

    /// The index of the tag record for `path`, if any.
    fn find_tag_index(tags: &Vec<TagRecord>, path: &str) -> (r: Option<usize>)
        ensures
            match r {
                Some(i) => i < tags@.len() && tags_view(tags@)[i as int].path == path@ && (forall|
                    j: int,
                |
                    0 <= j < i ==> (#[trigger] tags_view(tags@)[j]).path != path@),
                None => forall|j: int|
                    0 <= j < tags@.len() ==> (#[trigger] tags_view(tags@)[j]).path != path@,
            },
    {
        let mut i: usize = 0;
        while i < tags.len()
            invariant
                i <= tags@.len(),
                forall|j: int| 0 <= j < i ==> (#[trigger] tags_view(tags@)[j]).path != path@,
            decreases tags@.len() - i,
        {
            if paths::str_eq(tags[i].path.as_str(), path) {
                return Some(i);
            }
            i = i + 1;
        }
        None
    }

    /// Replace or append the reference record for `path`.
    fn upsert_file_record(&mut self, path: &str, refs: Vec<String>)
        ensures
            final(self)@.root == old(self)@.root,
            final(self)@.base == old(self)@.base,
            final(self)@.show_hidden == old(self)@.show_hidden,
            final(self)@.images == old(self)@.images,
            final(self)@.tags == old(self)@.tags,
            final(self)@.files == spec_upsert_file(
                old(self)@.files,
                (FileFact { path: path@, refs: views_of(refs@) }),
            ),
            old(self).wf() ==> final(self).wf(),
    {
        let ghost v = files_view(self.files@);
        let ghost fact = FileFact { path: path@, refs: views_of(refs@) };
        let rec = FileRecord { path: String::from_str(path), refs };
        proof {
            assert(rec@ == fact);
        }
        match Self::find_file_index(&self.files, path) {
            Some(i) => {
                proof {
                    lemma_find_file_at(v, path@, i as int);
                }
                self.files[i] = rec;
                proof {
                    assert(files_view(self.files@) =~= v.update(i as int, fact));
                    if old(self).wf() {
                        assert forall|a: int, b: int|
                            0 <= a < b < files_view(self.files@).len() implies files_view(
                            self.files@,
                        )[a].path != files_view(self.files@)[b].path by {
                            assert(v[i as int].path == path@);
                        }
                    }
                }
            },
            None => {
                proof {
                    lemma_find_file_none(v, path@);
                    assert(files_view(self.files@.push(rec)) =~= v.push(fact));
                }
                self.files.push(rec);
            },
        }
    }

    /// Replace or append the tag record for `path`.
    fn upsert_tag_record(&mut self, path: &str, tags: Vec<String>)
        requires
            tags@.len() > 0,
        ensures
            final(self)@.root == old(self)@.root,
            final(self)@.base == old(self)@.base,
            final(self)@.show_hidden == old(self)@.show_hidden,
            final(self)@.images == old(self)@.images,
            final(self)@.files == old(self)@.files,
            final(self)@.tags == spec_upsert_tags(
                old(self)@.tags,
                (TagFact { path: path@, tags: views_of(tags@) }),
            ),
            old(self).wf() ==> final(self).wf(),
    {
        let ghost v = tags_view(self.tags@);
        let ghost fact = TagFact { path: path@, tags: views_of(tags@) };
        proof {
            assert(views_of(tags@).len() > 0);
        }
        let rec = TagRecord { path: String::from_str(path), tags };
        proof {
            assert(rec@ == fact);
        }
        match Self::find_tag_index(&self.tags, path) {
            Some(i) => {
                proof {
                    lemma_find_tags_at(v, path@, i as int);
                }
                self.tags[i] = rec;
                proof {
                    assert(tags_view(self.tags@) =~= v.update(i as int, fact));
                    if old(self).wf() {
                        assert forall|a: int, b: int|
                            0 <= a < b < tags_view(self.tags@).len() implies tags_view(
                            self.tags@,
                        )[a].path != tags_view(self.tags@)[b].path by {
                            assert(v[i as int].path == path@);
                        }
                    }
                }
            },
            None => {
                proof {
                    lemma_find_tags_none(v, path@);
                    assert(tags_view(self.tags@.push(rec)) =~= v.push(fact));
                }
                self.tags.push(rec);
            },
        }
    }

    /// Drop the tag record for `path`, if there is one.
    fn remove_tag_record(&mut self, path: &str)
        ensures
            final(self)@.root == old(self)@.root,
            final(self)@.base == old(self)@.base,
            final(self)@.show_hidden == old(self)@.show_hidden,
            final(self)@.images == old(self)@.images,
            final(self)@.files == old(self)@.files,
            final(self)@.tags == old(self)@.tags.filter(tag_path_ne(path@)),
            old(self).wf() ==> final(self).wf(),
    {
        let ghost old_tags = tags_view(self.tags@);
        let mut kept: Vec<TagRecord> = Vec::new();
        let mut i: usize = 0;
        proof {
            reveal(Seq::filter);
            assert(tags_view(kept@) =~= old_tags.take(0).filter(tag_path_ne(path@)));
        }
        while i < self.tags.len()
            invariant
                i <= self.tags@.len(),
                old_tags == tags_view(self.tags@),
                tags_view(kept@) == old_tags.take(i as int).filter(tag_path_ne(path@)),
            decreases self.tags@.len() - i,
        {
            let keep = !paths::str_eq(self.tags[i].path.as_str(), path);
            proof {
                reveal(Seq::filter);
                assert(old_tags.take(i + 1).drop_last() =~= old_tags.take(i as int));
                assert(old_tags.take(i + 1).last() == old_tags[i as int]);
            }
            if keep {
                let rec = TagRecord {
                    path: self.tags[i].path.clone(),
                    tags: self.tags[i].tags.clone(),
                };
                proof {
                    assert(rec@ == old_tags[i as int]) by {
                        assert(views_of(rec.tags@) =~= views_of(self.tags@[i as int].tags@));
                    }
                    assert(tags_view(kept@.push(rec)) =~= tags_view(kept@).push(rec@));
                }
                kept.push(rec);
            }
            i = i + 1;
        }
        proof {
            assert(old_tags.take(old_tags.len() as int) =~= old_tags);
        }
        self.tags = kept;
        proof {
            if old(self).wf() {
                lemma_filter_distinct_by(old_tags, tag_path_ne(path@), |t: TagFact| t.path);
                lemma_filter_subset(old_tags, tag_path_ne(path@));
                assert forall|i: int| 0 <= i < self@.tags.len() implies self@.tags[i].tags.len()
                    > 0 by {
                    let x = self@.tags[i];
                    let k = choose|k: int| 0 <= k < old_tags.len() && old_tags[k] == x;
                }
            }
        }
    }

    /// Add `path` to the image set unless already present.
    fn add_image(&mut self, path: &str)
        ensures
            final(self)@.root == old(self)@.root,
            final(self)@.base == old(self)@.base,
            final(self)@.show_hidden == old(self)@.show_hidden,
            final(self)@.files == old(self)@.files,
            final(self)@.tags == old(self)@.tags,
            final(self)@.images == spec_add_image(old(self)@.images, path@),
            old(self).wf() ==> final(self).wf(),
    {
        let ghost v = views_of(self.images@);
        let mut i: usize = 0;
        while i < self.images.len()
            invariant
                i <= self.images@.len(),
                v == views_of(self.images@),
                forall|j: int| 0 <= j < i ==> v[j] != path@,
            decreases self.images@.len() - i,
        {
            if paths::str_eq(self.images[i].as_str(), path) {
                proof {
                    assert(v.contains(path@)) by {
                        assert(v[i as int] == path@);
                    }
                }
                return ;
            }
            i = i + 1;
        }
        proof {
            assert(!v.contains(path@)) by {
                if v.contains(path@) {
                    let k = choose|k: int| 0 <= k < v.len() && v[k] == path@;
                }
            }
        }
        let s = String::from_str(path);
        proof {
            assert(views_of(self.images@.push(s)) =~= v.push(path@));
        }
        self.images.push(s);
    }
}

} // verus!
