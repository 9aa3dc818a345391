//! Path handling over plain strings.
//!
//! Paths are `/`-separated strings. A path's file name is the part after the
//! last separator, and its extension is the part of the file name after the
//! last dot, provided that dot is not the leading character (so a name such
//! as `.secret` has no extension and counts as hidden instead).

use vstd::prelude::*;
use vstd::string::*;

verus! {

/// The file name: the suffix of `p` after the last `/` (all of `p` if none).
pub open spec fn spec_file_name(p: Seq<char>) -> Seq<char>
    decreases p.len(),
{
    if p.len() == 0 {
        Seq::empty()
    } else if p.last() == '/' {
        Seq::empty()
    } else {
        spec_file_name(p.drop_last()).push(p.last())
    }
}

/// Helper for [`spec_extension_of_name`]: walks the name from the back,
/// accumulating the characters already passed over in `acc`.
pub open spec fn spec_ext_rec(n: Seq<char>, acc: Seq<char>) -> Option<Seq<char>>
    decreases n.len(),
{
    if n.len() == 0 {
        None
    } else if n.last() == '.' {
        if n.len() == 1 {
            None
        } else {
            Some(acc)
        }
    } else {
        spec_ext_rec(n.drop_last(), seq![n.last()] + acc)
    }
}

/// The extension of a file name: the part after the last `.`, unless that
/// dot leads the name or the name has no dot at all.
pub open spec fn spec_extension_of_name(n: Seq<char>) -> Option<Seq<char>> {
    spec_ext_rec(n, Seq::empty())
}

/// The extension of a path.
pub open spec fn spec_extension(p: Seq<char>) -> Option<Seq<char>> {
    spec_extension_of_name(spec_file_name(p))
}

/// Case-insensitive character comparison against a lower-case letter:
/// equal outright, or `a` is the upper-case form of `b`.
pub open spec fn spec_char_eq_ci(a: char, b: char) -> bool {
    a == b || ('A' <= a && a <= 'Z' && a as int + 32 == b as int)
}

/// `a` equals `b` ignoring ASCII case, where `b` is already lower-case.
pub open spec fn spec_seq_eq_ci(a: Seq<char>, b: Seq<char>) -> bool {
    a.len() == b.len() && forall|i: int| 0 <= i < a.len() ==> spec_char_eq_ci(a[i], b[i])
}

/// The fixed image-extension set (with the legacy `ind` alias).
pub open spec fn spec_is_image_ext(e: Seq<char>) -> bool {
    ||| spec_seq_eq_ci(e, "png"@)
    ||| spec_seq_eq_ci(e, "jpg"@)
    ||| spec_seq_eq_ci(e, "jpeg"@)
    ||| spec_seq_eq_ci(e, "gif"@)
    ||| spec_seq_eq_ci(e, "bmp"@)
    ||| spec_seq_eq_ci(e, "webp"@)
    ||| spec_seq_eq_ci(e, "ind"@)
}

/// A path is an image path when its extension is in the image set.
pub open spec fn spec_is_image_path(p: Seq<char>) -> bool {
    match spec_extension(p) {
        Some(e) => spec_is_image_ext(e),
        None => false,
    }
}

pub open spec fn spec_is_markdown_path(p: Seq<char>) -> bool {
    match spec_extension(p) {
        Some(e) => spec_seq_eq_ci(e, "md"@),
        None => false,
    }
}

pub open spec fn spec_is_code_ext(e: Seq<char>) -> bool {
    ||| spec_seq_eq_ci(e, "rs"@)
    ||| spec_seq_eq_ci(e, "py"@)
    ||| spec_seq_eq_ci(e, "c"@)
    ||| spec_seq_eq_ci(e, "cpp"@)
    ||| spec_seq_eq_ci(e, "h"@)
    ||| spec_seq_eq_ci(e, "js"@)
    ||| spec_seq_eq_ci(e, "html"@)
    ||| spec_seq_eq_ci(e, "css"@)
    ||| spec_seq_eq_ci(e, "sh"@)
}

pub open spec fn spec_is_code_path(p: Seq<char>) -> bool {
    match spec_extension(p) {
        Some(e) => spec_is_code_ext(e),
        None => false,
    }
}

pub open spec fn spec_is_pdf_path(p: Seq<char>) -> bool {
    match spec_extension(p) {
        Some(e) => spec_seq_eq_ci(e, "pdf"@),
        None => false,
    }
}

/// A directory entry is hidden when its file name starts with a dot.
pub open spec fn spec_is_hidden_name(n: Seq<char>) -> bool {
    n.len() > 0 && n[0] == '.'
}

/// `p` lies in the subtree rooted at `base`: it is `base` itself or extends
/// it at a separator boundary.
pub open spec fn spec_in_subtree(p: Seq<char>, base: Seq<char>) -> bool {
    ||| p == base
    ||| (p.len() > base.len() && p.subrange(0, base.len() as int) == base && p[base.len() as int]
        == '/')
}

/// A reference target is relative unless it starts with the separator.
pub open spec fn spec_is_relative(t: Seq<char>) -> bool {
    !(t.len() > 0 && t[0] == '/')
}

/// A raw reference target resolved against the directory `base`: absolute
/// targets are kept, relative ones are joined below `base`.
pub open spec fn spec_resolve(base: Seq<char>, t: Seq<char>) -> Seq<char> {
    if spec_is_relative(t) {
        base + seq!['/'] + t
    } else {
        t
    }
}

proof fn lemma_file_name_suffix(p: Seq<char>, k: int)
    requires
        0 <= k <= p.len(),
        forall|j: int| k <= j < p.len() ==> p[j] != '/',
        k == 0 || p[k - 1] == '/',
    ensures
        spec_file_name(p) == p.subrange(k, p.len() as int),
    decreases p.len(),
{
    if p.len() == 0 {
        assert(spec_file_name(p) =~= p.subrange(k, p.len() as int));
    } else if k == p.len() {
        assert(p.last() == '/');
        assert(spec_file_name(p) =~= p.subrange(k, p.len() as int));
    } else {
        assert(p.last() != '/');
        lemma_file_name_suffix(p.drop_last(), k);
        assert(spec_file_name(p) =~= p.subrange(k, p.len() as int));
    }
}

proof fn lemma_ext_rec_found(n: Seq<char>, acc: Seq<char>, k: int)
    requires
        1 <= k < n.len(),
        n[k] == '.',
        forall|j: int| k < j < n.len() ==> n[j] != '.',
    ensures
        spec_ext_rec(n, acc) == Some(n.subrange(k + 1, n.len() as int) + acc),
    decreases n.len(),
{
    if k == n.len() - 1 {
        assert(n.last() == '.');
        assert(n.subrange(k + 1, n.len() as int) + acc =~= acc);
    } else {
        assert(n.last() != '.');
        lemma_ext_rec_found(n.drop_last(), seq![n.last()] + acc, k);
        assert(n.drop_last().subrange(k + 1, n.len() - 1) + (seq![n.last()] + acc) =~= n.subrange(
            k + 1,
            n.len() as int,
        ) + acc);
    }
}

proof fn lemma_ext_rec_none(n: Seq<char>, acc: Seq<char>)
    requires
        forall|j: int| 1 <= j < n.len() ==> n[j] != '.',
    ensures
        spec_ext_rec(n, acc) is None,
    decreases n.len(),
{
    if n.len() == 0 {
    } else if n.last() == '.' {
        assert(n.len() == 1);
    } else {
        lemma_ext_rec_none(n.drop_last(), seq![n.last()] + acc);
    }
}

/// The index of the last occurrence of `c` in `s`, if any.
pub fn last_index_of(s: &str, c: char) -> (r: Option<usize>)
    ensures
        match r {
            Some(k) => k < s@.len() && s@[k as int] == c && (forall|j: int|
                k < j < s@.len() ==> s@[j] != c),
            None => forall|j: int| 0 <= j < s@.len() ==> s@[j] != c,
        },
{
    let mut i: usize = s.unicode_len();
    while i > 0
        invariant
            i <= s@.len(),
            forall|j: int| i <= j < s@.len() ==> s@[j] != c,
        decreases i,
    {
        i = i - 1;
        if s.get_char(i) == c {
            return Some(i);
        }
    }
    None
}

/// The file name of `p`: the part after the last `/`.
pub fn file_name(p: &str) -> (r: String)
    ensures
        r@ == spec_file_name(p@),
{
    let len = p.unicode_len();
    match last_index_of(p, '/') {
        Some(k) => {
            proof {
                lemma_file_name_suffix(p@, k + 1);
            }
            String::from_str(p.substring_char(k + 1, len))
        },
        None => {
            proof {
                lemma_file_name_suffix(p@, 0);
                assert(p@.subrange(0, p@.len() as int) =~= p@);
            }
            String::from_str(p)
        },
    }
}

/// The extension of `p`, if its file name has one.
pub fn extension(p: &str) -> (r: Option<String>)
    ensures
        match r {
            Some(e) => spec_extension(p@) == Some(e@),
            None => spec_extension(p@) is None,
        },
{
    let name = file_name(p);
    let name_str = name.as_str();
    let nlen = name_str.unicode_len();
    match last_index_of(name_str, '.') {
        Some(k) if k >= 1 => {
            proof {
                lemma_ext_rec_found(name@, Seq::empty(), k as int);
                assert(name@.subrange(k + 1, name@.len() as int) + Seq::<char>::empty()
                    =~= name@.subrange(k + 1, name@.len() as int));
            }
            Some(String::from_str(name_str.substring_char(k + 1, nlen)))
        },
        _ => {
            proof {
                lemma_ext_rec_none(name@, Seq::empty());
            }
            None
        },
    }
}

/// Exact string comparison.
pub fn str_eq(s: &str, t: &str) -> (r: bool)
    ensures
        r == (s@ == t@),
{
    let slen = s.unicode_len();
    let tlen = t.unicode_len();
    if slen != tlen {
        proof {
            assert(s@ != t@) by {
                assert(s@.len() != t@.len());
            }
        }
        return false;
    }
    let mut i: usize = 0;
    while i < slen
        invariant
            i <= slen,
            slen == s@.len(),
            slen == t@.len(),
            forall|j: int| 0 <= j < i ==> s@[j] == t@[j],
        decreases slen - i,
    {
        if s.get_char(i) != t.get_char(i) {
            proof {
                assert(s@ != t@) by {
                    assert(s@[i as int] != t@[i as int]);
                }
            }
            return false;
        }
        i = i + 1;
    }
    proof {
        assert(s@ =~= t@);
    }
    true
}

/// Case-insensitive comparison of `s` against an already lower-case `t`.
pub fn str_eq_ci(s: &str, t: &str) -> (r: bool)
    ensures
        r == spec_seq_eq_ci(s@, t@),
{
    let slen = s.unicode_len();
    let tlen = t.unicode_len();
    if slen != tlen {
        return false;
    }
    let mut i: usize = 0;
    while i < slen
        invariant
            i <= slen,
            slen == s@.len(),
            slen == t@.len(),
            forall|j: int| 0 <= j < i ==> spec_char_eq_ci(s@[j], t@[j]),
        decreases slen - i,
    {
        let a = s.get_char(i);
        let b = t.get_char(i);
        let ai = a as u32;
        let bi = b as u32;
        if !(a == b || (65 <= ai && ai <= 90 && ai + 32 == bi)) {
            return false;
        }
        i = i + 1;
    }
    true
}

/// Whether the extension `e` is in the image set.
fn ext_is_image(e: &str) -> (r: bool)
    ensures
        r == spec_is_image_ext(e@),
{
    str_eq_ci(e, "png") || str_eq_ci(e, "jpg") || str_eq_ci(e, "jpeg") || str_eq_ci(e, "gif")
        || str_eq_ci(e, "bmp") || str_eq_ci(e, "webp") || str_eq_ci(e, "ind")
}

/// Whether `path` names an image file, by its extension.
pub fn is_image_path(path: &str) -> (r: bool)
    ensures
        r == spec_is_image_path(path@),
{
    match extension(path) {
        Some(e) => ext_is_image(e.as_str()),
        None => false,
    }
}

/// Whether `path` names a markdown file, by its extension.
pub fn is_markdown_path(path: &str) -> (r: bool)
    ensures
        r == spec_is_markdown_path(path@),
{
    match extension(path) {
        Some(e) => str_eq_ci(e.as_str(), "md"),
        None => false,
    }
}

/// Whether `path` names a source-code file, by its extension.
pub fn is_code_path(path: &str) -> (r: bool)
    ensures
        r == spec_is_code_path(path@),
{
    match extension(path) {
        Some(e) => {
            let s = e.as_str();
            str_eq_ci(s, "rs") || str_eq_ci(s, "py") || str_eq_ci(s, "c") || str_eq_ci(s, "cpp")
                || str_eq_ci(s, "h") || str_eq_ci(s, "js") || str_eq_ci(s, "html") || str_eq_ci(
                s,
                "css",
            ) || str_eq_ci(s, "sh")
        },
        None => false,
    }
}

/// Whether `path` names a PDF file, by its extension.
pub fn is_pdf_path(path: &str) -> (r: bool)
    ensures
        r == spec_is_pdf_path(path@),
{
    match extension(path) {
        Some(e) => str_eq_ci(e.as_str(), "pdf"),
        None => false,
    }
}

/// Whether the directory-entry name `name` is hidden.
pub fn is_hidden_name(name: &str) -> (r: bool)
    ensures
        r == spec_is_hidden_name(name@),
{
    if name.unicode_len() == 0 {
        false
    } else {
        name.get_char(0) == '.'
    }
}

/// Whether `p` lies in the subtree rooted at `base`.
pub fn in_subtree(p: &str, base: &str) -> (r: bool)
    ensures
        r == spec_in_subtree(p@, base@),
{
    let plen = p.unicode_len();
    let blen = base.unicode_len();
    if plen < blen {
        proof {
            assert(p@ != base@) by {
                assert(p@.len() != base@.len());
            }
        }
        return false;
    }
    let mut i: usize = 0;
    while i < blen
        invariant
            i <= blen,
            blen == base@.len(),
            plen == p@.len(),
            blen <= plen,
            forall|j: int| 0 <= j < i ==> p@[j] == base@[j],
        decreases blen - i,
    {
        if p.get_char(i) != base.get_char(i) {
            proof {
                assert(p@ != base@) by {
                    assert(p@[i as int] != base@[i as int]);
                }
                assert(p@.len() > base@.len() ==> p@.subrange(0, base@.len() as int) != base@) by {
                    if p@.len() > base@.len() {
                        assert(p@.subrange(0, base@.len() as int)[i as int] != base@[i as int]);
                    }
                }
            }
            return false;
        }
        i = i + 1;
    }
    if plen == blen {
        proof {
            assert(p@ =~= base@);
        }
        true
    } else {
        proof {
            assert(p@.subrange(0, base@.len() as int) =~= base@);
        }
        p.get_char(blen) == '/'
    }
}

/// `target` resolved against the directory `base`.
pub fn resolve(base: &str, target: &str) -> (r: String)
    ensures
        r@ == spec_resolve(base@, target@),
{
    let relative = if target.unicode_len() == 0 {
        true
    } else {
        target.get_char(0) != '/'
    };
    if relative {
        let mut r = String::from_str(base);
        r.append("/");
        r.append(target);
        proof {
            reveal_strlit("/");
            assert(r@ =~= base@ + seq!['/'] + target@);
        }
        r
    } else {
        String::from_str(target)
    }
}

} // verus!
