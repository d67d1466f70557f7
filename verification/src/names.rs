//! Deriving a repository's directory name from its clone URL.
//!
//! When `add` is given no explicit name, the name is the URL's final path
//! segment with any file extension removed (`https://host/repo.git` clones
//! into `repo`). An explicit name is always used verbatim.

use vstd::prelude::*;
use vstd::string::StrSliceExecFns;

use crate::text::{
    find_last, is_last_index_of, lemma_last_index_unique, seq_contains_char,
};

verus! {

/// The characters after the last `/` of `url`, or all of `url` if it has none.
pub open spec fn last_segment(url: Seq<char>) -> Seq<char> {
    if exists|i: int| is_last_index_of(url, '/', i) {
        let i = choose|i: int| is_last_index_of(url, '/', i);
        url.subrange(i + 1, url.len() as int)
    } else {
        url
    }
}

/// `seg` with its extension removed: the characters before the last `.`,
/// unless that dot is the first character (a leading-dot name keeps it) or
/// there is no dot at all.
pub open spec fn stem_of(seg: Seq<char>) -> Seq<char> {
    if exists|i: int| is_last_index_of(seg, '.', i) {
        let i = choose|i: int| is_last_index_of(seg, '.', i);
        if i > 0 {
            seg.subrange(0, i)
        } else {
            seg
        }
    } else {
        seg
    }
}

/// The directory name `add` derives when no explicit name is given.
pub open spec fn derived_name(url: Seq<char>) -> Seq<char> {
    stem_of(last_segment(url))
}

/// The directory name `add` uses: the explicit name verbatim when one is
/// given, the derived name otherwise.
pub open spec fn resolved_name(url: Seq<char>, name: Seq<char>) -> Seq<char> {
    if name.len() > 0 {
        name
    } else {
        derived_name(url)
    }
}

/// The final path segment of `url`.
pub fn trailing_segment<'a>(url: &'a str) -> (r: &'a str)
    ensures
        r@ == last_segment(url@),
{
    let n = url.unicode_len();
    match find_last(url, '/') {
        Some(i) => {
            proof {
                let w = choose|w: int| is_last_index_of(url@, '/', w);
                lemma_last_index_unique(url@, '/', w, i as int);
            }
            url.substring_char(i + 1, n)
        },
        None => {
            proof {
                if exists|i: int| is_last_index_of(url@, '/', i) {
                    let i = choose|i: int| is_last_index_of(url@, '/', i);
                    assert(0 <= i < url@.len() && url@[i] == '/');
                    assert(seq_contains_char(url@, '/'));
                }
            }
            url
        },
    }
}

/// `seg` with its extension removed.
pub fn stem<'a>(seg: &'a str) -> (r: &'a str)
    ensures
        r@ == stem_of(seg@),
{
    match find_last(seg, '.') {
        Some(i) => {
            proof {
                let w = choose|w: int| is_last_index_of(seg@, '.', w);
                lemma_last_index_unique(seg@, '.', w, i as int);
            }
            if i > 0 {
                seg.substring_char(0, i)
            } else {
                seg
            }
        },
        None => {
            proof {
                if exists|i: int| is_last_index_of(seg@, '.', i) {
                    let i = choose|i: int| is_last_index_of(seg@, '.', i);
                    assert(0 <= i < seg@.len() && seg@[i] == '.');
                    assert(seq_contains_char(seg@, '.'));
                }
            }
            seg
        },
    }
}

/// The directory name derived from `url` alone.
pub fn derive_name(url: &str) -> (r: String)
    ensures
        r@ == derived_name(url@),
{
    stem(trailing_segment(url)).to_owned()
}

/// The directory name `add` will clone into. `None` exactly when the name
/// would be empty (no explicit name and the URL ends in `/`), on which the
/// tool refuses to work.
pub fn resolve_name(url: &str, name: &str) -> (r: Option<String>)
    ensures
        match r {
            Some(n) => n@ == resolved_name(url@, name@) && n@.len() > 0,
            None => resolved_name(url@, name@).len() == 0,
        },
{
    if !name.is_empty() {
        return Some(name.to_owned());
    }
    let n = derive_name(url);
    if n.as_str().is_empty() {
        None
    } else {
        Some(n)
    }
}

/// Appending `/seg` to any prefix makes `seg` the last segment, provided
/// `seg` itself holds no `/`.
pub proof fn lemma_last_segment_of_slash(prefix: Seq<char>, seg: Seq<char>)
    requires
        !seq_contains_char(seg, '/'),
    ensures
        last_segment(prefix + seq!['/'] + seg) == seg,
{
    let u = prefix + seq!['/'] + seg;
    let p = prefix.len() as int;
    assert(u[p] == '/');
    assert forall|j: int| p < j < u.len() implies u[j] != '/' by {
        assert(u[j] == seg[j - p - 1]);
        if seg[j - p - 1] == '/' {
            assert(seq_contains_char(seg, '/'));
        }
    }
    assert(is_last_index_of(u, '/', p));
    let w = choose|i: int| is_last_index_of(u, '/', i);
    lemma_last_index_unique(u, '/', w, p);
    assert(u.subrange(p + 1, u.len() as int) =~= seg);
}

/// Appending `.ext` to a dot-free nonempty `x` strips back down to `x`,
/// provided the extension itself holds no further dot.
pub proof fn lemma_stem_of_extension(x: Seq<char>, ext: Seq<char>)
    requires
        x.len() > 0,
        !seq_contains_char(x, '.'),
        !seq_contains_char(ext, '.'),
    ensures
        stem_of(x + seq!['.'] + ext) == x,
{
    let s = x + seq!['.'] + ext;
    let p = x.len() as int;
    assert(s[p] == '.');
    assert forall|j: int| p < j < s.len() implies s[j] != '.' by {
        assert(s[j] == ext[j - p - 1]);
        if ext[j - p - 1] == '.' {
            assert(seq_contains_char(ext, '.'));
        }
    }
    assert(is_last_index_of(s, '.', p));
    let w = choose|i: int| is_last_index_of(s, '.', i);
    lemma_last_index_unique(s, '.', w, p);
    assert(s.subrange(0, p) =~= x);
}

/// A dot-free segment is its own stem.
pub proof fn lemma_stem_of_plain(x: Seq<char>)
    requires
        !seq_contains_char(x, '.'),
    ensures
        stem_of(x) == x,
{
    if exists|i: int| is_last_index_of(x, '.', i) {
        let i = choose|i: int| is_last_index_of(x, '.', i);
        assert(0 <= i < x.len() && x[i] == '.');
        assert(seq_contains_char(x, '.'));
    }
}

/// For every URL whose trailing path segment is `X.ext` — or a bare `X` —
/// with `X` nonempty and neither `X` nor `ext` holding a `/` or a further
/// `.`, the name `add` derives is exactly `X`: the extension is stripped,
/// and nothing else of the URL's shape matters.
pub proof fn lemma_derived_name_is_trailing_stem(prefix: Seq<char>, x: Seq<char>, ext: Seq<char>)
    requires
        x.len() > 0,
        !seq_contains_char(x, '/'),
        !seq_contains_char(x, '.'),
        !seq_contains_char(ext, '/'),
        !seq_contains_char(ext, '.'),
    ensures
        derived_name(prefix + seq!['/'] + (x + seq!['.'] + ext)) == x,
        derived_name(prefix + seq!['/'] + x) == x,
{
    let seg = x + seq!['.'] + ext;
    assert forall|i: int| 0 <= i < seg.len() implies seg[i] != '/' by {
        if i < x.len() {
            assert(seg[i] == x[i]);
            if x[i] == '/' {
                assert(seq_contains_char(x, '/'));
            }
        } else if i == x.len() {
            assert(seg[i] == '.');
        } else {
            assert(seg[i] == ext[i - x.len() - 1]);
            if ext[i - x.len() - 1] == '/' {
                assert(seq_contains_char(ext, '/'));
            }
        }
    }
    if seq_contains_char(seg, '/') {
        let i = choose|i: int| 0 <= i < seg.len() && seg[i] == '/';
        assert(seg[i] != '/');
    }
    lemma_last_segment_of_slash(prefix, seg);
    lemma_stem_of_extension(x, ext);
    lemma_last_segment_of_slash(prefix, x);
    lemma_stem_of_plain(x);
}

} // verus!
