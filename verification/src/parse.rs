//! Extraction of outbound references and tags from text content.
//!
//! Two reference syntaxes are recognised, scanning left to right with the
//! parenthesized form taking precedence at any given start position:
//!
//! * `[label](target)` — label and target both non-empty, the label free of
//!   `]` and the target free of `)`;
//! * `[[target]]` — target non-empty and free of `]`.
//!
//! Matches do not overlap: scanning resumes after the end of a match. Tags
//! are `#` immediately followed by one or more word characters (ASCII
//! letters, digits or `_`); each maximal run after a `#` is one tag.

use vstd::prelude::*;
use vstd::string::*;

verus! {

/// The views of a vector of strings.
pub open spec fn views_of(v: Seq<String>) -> Seq<Seq<char>> {
    v.map_values(|s: String| s@)
}

/// The first index `j >= from` with `s[j] == c`, if any.
pub open spec fn spec_find(s: Seq<char>, c: char, from: int) -> Option<int>
    decreases s.len() - from,
{
    if from < 0 || from >= s.len() {
        None
    } else if s[from] == c {
        Some(from)
    } else {
        spec_find(s, c, from + 1)
    }
}

/// A `[label](target)` match starting at `i`: the end of the match and the
/// target, if the form matches there.
pub open spec fn spec_paren_at(s: Seq<char>, i: int) -> Option<(int, Seq<char>)> {
    if !(0 <= i < s.len() && s[i] == '[') {
        None
    } else {
        match spec_find(s, ']', i + 1) {
            None => None,
            Some(j) => if j == i + 1 {
                None
            } else if j + 1 < s.len() && s[j + 1] == '(' {
                match spec_find(s, ')', j + 2) {
                    None => None,
                    Some(k) => if k == j + 2 {
                        None
                    } else {
                        Some((k + 1, s.subrange(j + 2, k)))
                    },
                }
            } else {
                None
            },
        }
    }
}

/// A `[[target]]` match starting at `i`.
pub open spec fn spec_wiki_at(s: Seq<char>, i: int) -> Option<(int, Seq<char>)> {
    if !(0 <= i && i + 1 < s.len() && s[i] == '[' && s[i + 1] == '[') {
        None
    } else {
        match spec_find(s, ']', i + 2) {
            None => None,
            Some(j) => if j == i + 2 {
                None
            } else if j + 1 < s.len() && s[j + 1] == ']' {
                Some((j + 2, s.subrange(i + 2, j)))
            } else {
                None
            },
        }
    }
}

/// The reference match starting at `i`, the parenthesized form first.
pub open spec fn spec_link_at(s: Seq<char>, i: int) -> Option<(int, Seq<char>)> {
    if spec_paren_at(s, i) is Some {
        spec_paren_at(s, i)
    } else {
        spec_wiki_at(s, i)
    }
}

/// All reference targets found at or after `i`, in order of appearance.
pub open spec fn spec_references_from(s: Seq<char>, i: int) -> Seq<Seq<char>>
    decreases s.len() - i,
{
    if i < 0 || i >= s.len() {
        Seq::empty()
    } else {
        match spec_link_at(s, i) {
            Some((end, t)) => {
                let next = if i < end <= s.len() {
                    end
                } else {
                    i + 1
                };
                seq![t] + spec_references_from(s, next)
            },
            None => spec_references_from(s, i + 1),
        }
    }
}

/// All reference targets in `s`, in order of appearance.
pub open spec fn spec_references(s: Seq<char>) -> Seq<Seq<char>> {
    spec_references_from(s, 0)
}

/// Word characters as the tag syntax accepts them.
pub open spec fn spec_is_word_char(c: char) -> bool {
    ('a' <= c && c <= 'z') || ('A' <= c && c <= 'Z') || ('0' <= c && c <= '9') || c == '_'
}

/// The first index `j >= from` holding a non-word character (or the end).
pub open spec fn spec_word_end(s: Seq<char>, from: int) -> int
    decreases s.len() - from,
{
    if from < 0 || from >= s.len() {
        s.len() as int
    } else if spec_is_word_char(s[from]) {
        spec_word_end(s, from + 1)
    } else {
        from
    }
}

/// The tag match starting at `i`: a `#` followed by at least one word
/// character; the tag is the maximal word-character run after the `#`.
pub open spec fn spec_tag_at(s: Seq<char>, i: int) -> Option<(int, Seq<char>)> {
    if 0 <= i && i + 1 < s.len() && s[i] == '#' && spec_is_word_char(s[i + 1]) {
        let e = spec_word_end(s, i + 1);
        Some((e, s.subrange(i + 1, e)))
    } else {
        None
    }
}

/// All tags found at or after `i`, in order of appearance, duplicates kept.
pub open spec fn spec_tags_from(s: Seq<char>, i: int) -> Seq<Seq<char>>
    decreases s.len() - i,
{
    if i < 0 || i >= s.len() {
        Seq::empty()
    } else {
        match spec_tag_at(s, i) {
            Some((end, t)) => {
                let next = if i < end <= s.len() {
                    end
                } else {
                    i + 1
                };
                seq![t] + spec_tags_from(s, next)
            },
            None => spec_tags_from(s, i + 1),
        }
    }
}

/// All tags in `s`, in order of appearance, duplicates kept.
pub open spec fn spec_tags(s: Seq<char>) -> Seq<Seq<char>> {
    spec_tags_from(s, 0)
}

/// The first index `j >= from` with `s[j] == c`, if any.
fn find_char_from(s: &str, c: char, from: usize) -> (r: Option<usize>)
    requires
        from <= s@.len(),
    ensures
        match r {
            Some(j) => spec_find(s@, c, from as int) == Some(j as int) && from <= j < s@.len(),
            None => spec_find(s@, c, from as int) is None,
        },
{
    let len = s.unicode_len();
    let mut j: usize = from;
    while j < len
        invariant
            from <= j <= len,
            len == s@.len(),
            spec_find(s@, c, from as int) == spec_find(s@, c, j as int),
        decreases len - j,
    {
        if s.get_char(j) == c {
            return Some(j);
        }
        j = j + 1;
    }
    None
}

/// The reference match starting at `i`, as [`spec_link_at`] describes it.
fn link_at(s: &str, i: usize) -> (r: Option<(usize, String)>)
    requires
        i < s@.len(),
    ensures
        match r {
            Some(p) => spec_link_at(s@, i as int) == Some((p.0 as int, p.1@)) && i < p.0
                && p.0 <= s@.len(),
            None => spec_link_at(s@, i as int) is None,
        },
{
    let len = s.unicode_len();
    if s.get_char(i) != '[' {
        return None;
    }
    // The parenthesized form first.
    let paren: Option<(usize, String)> = match find_char_from(s, ']', i + 1) {
        None => None,
        Some(j) => {
            if j == i + 1 {
                None
            } else if j + 1 < len && s.get_char(j + 1) == '(' {
                match find_char_from(s, ')', j + 2) {
                    None => None,
                    Some(k) => {
                        if k == j + 2 {
                            None
                        } else {
                            Some((k + 1, String::from_str(s.substring_char(j + 2, k))))
                        }
                    },
                }
            } else {
                None
            }
        },
    };
    if paren.is_some() {
        return paren;
    }
    assert(spec_paren_at(s@, i as int) is None);
    // Then the double-bracket form.
    if i + 1 < len && s.get_char(i + 1) == '[' {
        match find_char_from(s, ']', i + 2) {
            None => None,
            Some(j) => {
                if j == i + 2 {
                    None
                } else if j + 1 < len && s.get_char(j + 1) == ']' {
                    Some((j + 2, String::from_str(s.substring_char(i + 2, j))))
                } else {
                    None
                }
            },
        }
    } else {
        None
    }
}

/// All reference targets in `content`, in order of appearance.
pub fn extract_references(content: &str) -> (r: Vec<String>)
    ensures
        views_of(r@) == spec_references(content@),
{
    let len = content.unicode_len();
    let mut res: Vec<String> = Vec::new();
    proof {
        assert(views_of(res@) =~= Seq::<Seq<char>>::empty());
    }
    let mut i: usize = 0;
    while i < len
        invariant
            i <= len,
            len == content@.len(),
            views_of(res@) + spec_references_from(content@, i as int) == spec_references(
                content@,
            ),
        decreases len - i,
    {
        let ghost prev = res@;
        match link_at(content, i) {
            Some((end, t)) => {
                proof {
                    assert(spec_references_from(content@, i as int) == seq![t@]
                        + spec_references_from(content@, end as int));
                    assert(views_of(prev.push(t)) =~= views_of(prev).push(t@));
                    assert(views_of(prev).push(t@) + spec_references_from(content@, end as int)
                        =~= views_of(prev) + (seq![t@] + spec_references_from(
                        content@,
                        end as int,
                    )));
                }
                res.push(t);
                i = end;
            },
            None => {
                proof {
                    assert(spec_references_from(content@, i as int) == spec_references_from(
                        content@,
                        i + 1,
                    ));
                }
                i = i + 1;
            },
        }
    }
    res
}

/// The first index `j >= from` holding a non-word character (or the end).
fn word_end(s: &str, from: usize) -> (r: usize)
    requires
        from <= s@.len(),
    ensures
        r == spec_word_end(s@, from as int),
        from <= r <= s@.len(),
{
    let len = s.unicode_len();
    let mut j: usize = from;
    while j < len
        invariant
            from <= j <= len,
            len == s@.len(),
            spec_word_end(s@, from as int) == spec_word_end(s@, j as int),
        decreases len - j,
    {
        let c = s.get_char(j);
        let word = ('a' <= c && c <= 'z') || ('A' <= c && c <= 'Z') || ('0' <= c && c <= '9') || c
            == '_';
        if !word {
            return j;
        }
        j = j + 1;
    }
    len
}

/// All tags in `content`, in order of appearance, duplicates kept.
pub fn extract_tags(content: &str) -> (r: Vec<String>)
    ensures
        views_of(r@) == spec_tags(content@),
{
    let len = content.unicode_len();
    let mut res: Vec<String> = Vec::new();
    proof {
        assert(views_of(res@) =~= Seq::<Seq<char>>::empty());
    }
    let mut i: usize = 0;
    while i < len
        invariant
            i <= len,
            len == content@.len(),
            views_of(res@) + spec_tags_from(content@, i as int) == spec_tags(content@),
        decreases len - i,
    {
        let ghost prev = res@;
        let mut matched: Option<(usize, String)> = None;
        if i + 1 < len && content.get_char(i) == '#' {
            let c = content.get_char(i + 1);
            let word = ('a' <= c && c <= 'z') || ('A' <= c && c <= 'Z') || ('0' <= c && c <= '9')
                || c == '_';
            if word {
                let e = word_end(content, i + 1);
                matched = Some((e, String::from_str(content.substring_char(i + 1, e))));
            }
        }
        match matched {
            Some((end, t)) => {
                proof {
                    assert(spec_tag_at(content@, i as int) == Some((end as int, t@)));
                    assert(end > i);
                    assert(spec_tags_from(content@, i as int) == seq![t@] + spec_tags_from(
                        content@,
                        end as int,
                    ));
                    assert(views_of(prev.push(t)) =~= views_of(prev).push(t@));
                    assert(views_of(prev).push(t@) + spec_tags_from(content@, end as int)
                        =~= views_of(prev) + (seq![t@] + spec_tags_from(content@, end as int)));
                }
                res.push(t);
                i = end;
            },
            None => {
                proof {
                    assert(spec_tag_at(content@, i as int) is None);
                    assert(spec_tags_from(content@, i as int) == spec_tags_from(
                        content@,
                        i + 1,
                    ));
                }
                i = i + 1;
            },
        }
    }
    res
}

} // verus!
