//! Reading git's remote listings and selecting the remote to unlink.
//!
//! `git remote` prints one remote name per line; `git remote -v` prints
//! `name<TAB>url (fetch|push)` lines. `unlink` picks the first listed remote
//! whose URL contains the query as a substring, refuses to touch `origin`,
//! and reports `NotFound` when nothing matches.

use vstd::prelude::*;
use vstd::string::StrSliceExecFns;

use crate::errors::SpeculoError;
use crate::text::{
    contains_seq, contains_substr, find_first, is_first_index_of, lemma_first_index_unique,
    seq_contains_char,
};

verus! {

/// The views of a sequence of owned strings.
pub open spec fn strs_view(v: Seq<String>) -> Seq<Seq<char>> {
    v.map_values(|s: String| s@)
}

/// `line` wrapped as a one-element sequence when nonempty, else empty.
pub open spec fn nonempty_line(line: Seq<char>) -> Seq<Seq<char>> {
    if line.len() > 0 {
        seq![line]
    } else {
        Seq::empty()
    }
}

/// The nonempty lines of `out`, split on `\n`, in order.
pub open spec fn split_lines_spec(out: Seq<char>) -> Seq<Seq<char>>
    decreases out.len(),
{
    if out.len() == 0 {
        Seq::empty()
    } else if exists|i: int| is_first_index_of(out, '\n', i) {
        let i = choose|i: int| is_first_index_of(out, '\n', i);
        nonempty_line(out.subrange(0, i)) + split_lines_spec(
            out.subrange(i + 1, out.len() as int),
        )
    } else {
        nonempty_line(out)
    }
}

/// The nonempty lines of `out`: how the output of `git remote` is read as a
/// list of remote names.
pub fn split_lines(out: &str) -> (r: Vec<String>)
    ensures
        strs_view(r@) == split_lines_spec(out@),
    decreases out@.len(),
{
    let n = out.unicode_len();
    if n == 0 {
        let r = Vec::<String>::new();
        assert(strs_view(r@) =~= split_lines_spec(out@));
        return r;
    }
    match find_first(out, '\n') {
        Some(i) => {
            proof {
                let w = choose|w: int| is_first_index_of(out@, '\n', w);
                lemma_first_index_unique(out@, '\n', w, i as int);
            }
            let head = out.substring_char(0, i);
            let tail = out.substring_char(i + 1, n);
            let mut rest = split_lines(tail);
            if head.is_empty() {
                assert(strs_view(rest@) =~= split_lines_spec(out@));
                rest
            } else {
                let h = head.to_owned();
                let ghost old_rest = rest@;
                proof {
                    old_rest.insert_ensures(0, h);
                }
                rest.insert(0, h);
                assert(strs_view(rest@) =~= seq![head@] + strs_view(old_rest)) by {
                    assert forall|k: int| 0 <= k < rest@.len() implies strs_view(rest@)[k]
                        == (seq![head@] + strs_view(old_rest))[k] by {
                        if k > 0 {
                            assert(rest@[k] == old_rest[k - 1]);
                        }
                    }
                }
                assert(strs_view(rest@) =~= split_lines_spec(out@));
                rest
            }
        },
        None => {
            proof {
                if exists|i: int| is_first_index_of(out@, '\n', i) {
                    let i = choose|i: int| is_first_index_of(out@, '\n', i);
                    assert(seq_contains_char(out@, '\n'));
                }
            }
            let mut r = Vec::<String>::new();
            r.push(out.to_owned());
            assert(strs_view(r@) =~= split_lines_spec(out@));
            r
        },
    }
}

/// The names among `names` that a push run targets: those containing the
/// substring `mirror`, in their listed order.
pub open spec fn mirror_selection(names: Seq<Seq<char>>) -> Seq<Seq<char>>
    decreases names.len(),
{
    if names.len() == 0 {
        Seq::empty()
    } else if contains_seq(names.last(), "mirror"@) {
        mirror_selection(names.drop_last()).push(names.last())
    } else {
        mirror_selection(names.drop_last())
    }
}

/// Keep the remote names that contain `mirror`.
pub fn filter_mirror_remotes(names: &Vec<String>) -> (r: Vec<String>)
    ensures
        strs_view(r@) == mirror_selection(strs_view(names@)),
{
    let ghost all = strs_view(names@);
    let mut r = Vec::<String>::new();
    let mut i: usize = 0;
    assert(strs_view(r@) =~= mirror_selection(all.take(0)));
    while i < names.len()
        invariant
            i <= names@.len(),
            all == strs_view(names@),
            strs_view(r@) == mirror_selection(all.take(i as int)),
        decreases names@.len() - i,
    {
        proof {
            assert(all.take(i + 1).drop_last() =~= all.take(i as int));
            assert(all.take(i + 1).last() == names@[i as int]@);
        }
        if contains_substr(names[i].as_str(), "mirror") {
            let ghost old_r = r@;
            r.push(names[i].clone());
            assert(strs_view(r@) =~= strs_view(old_r).push(names@[i as int]@)) by {
                assert forall|k: int| 0 <= k < r@.len() implies strs_view(r@)[k]
                    == strs_view(old_r).push(names@[i as int]@)[k] by {
                    if k < old_r.len() {
                        assert(r@[k] == old_r[k]);
                    }
                }
            }
        }
        i = i + 1;
    }
    proof {
        assert(all.take(names@.len() as int) =~= all);
    }
    r
}

/// One configured remote: its name and its fetch/push URL.
pub struct Remote {
    pub name: String,
    pub url: String,
}

/// The mathematical content of a `Remote`.
pub ghost struct RemoteView {
    pub name: Seq<char>,
    pub url: Seq<char>,
}

impl View for Remote {
    type V = RemoteView;

    open spec fn view(&self) -> RemoteView {
        RemoteView { name: self.name@, url: self.url@ }
    }
}

/// The views of a sequence of remotes.
pub open spec fn remotes_views(v: Seq<Remote>) -> Seq<RemoteView> {
    v.map_values(|r: Remote| r@)
}

/// One line of `git remote -v` output: the remote name up to the first tab,
/// then its URL up to the following space (the ` (fetch)` / ` (push)` tag).
/// A line without a tab names no remote.
pub open spec fn parse_line_spec(line: Seq<char>) -> Option<RemoteView> {
    if exists|i: int| is_first_index_of(line, '\t', i) {
        let i = choose|i: int| is_first_index_of(line, '\t', i);
        let name = line.subrange(0, i);
        let rest = line.subrange(i + 1, line.len() as int);
        let url = if exists|j: int| is_first_index_of(rest, ' ', j) {
            let j = choose|j: int| is_first_index_of(rest, ' ', j);
            rest.subrange(0, j)
        } else {
            rest
        };
        Some(RemoteView { name, url })
    } else {
        None
    }
}

/// The remote named by one listing line, as a zero- or one-element sequence.
pub open spec fn line_remotes(line: Seq<char>) -> Seq<RemoteView> {
    match parse_line_spec(line) {
        Some(r) => seq![r],
        None => Seq::empty(),
    }
}

/// Every remote named by a whole `git remote -v` listing, in listed order.
pub open spec fn parse_remotes_spec(out: Seq<char>) -> Seq<RemoteView>
    decreases out.len(),
{
    if out.len() == 0 {
        Seq::empty()
    } else if exists|i: int| is_first_index_of(out, '\n', i) {
        let i = choose|i: int| is_first_index_of(out, '\n', i);
        line_remotes(out.subrange(0, i)) + parse_remotes_spec(out.subrange(i + 1, out.len() as int))
    } else {
        line_remotes(out)
    }
}

/// Read one listing line.
pub fn parse_line(line: &str) -> (r: Option<Remote>)
    ensures
        match r {
            Some(rem) => parse_line_spec(line@) == Some(rem@),
            None => parse_line_spec(line@) is None,
        },
{
    let n = line.unicode_len();
    match find_first(line, '\t') {
        Some(i) => {
            proof {
                let w = choose|w: int| is_first_index_of(line@, '\t', w);
                lemma_first_index_unique(line@, '\t', w, i as int);
            }
            let name = line.substring_char(0, i);
            let rest = line.substring_char(i + 1, n);
            let rlen = rest.unicode_len();
            let url = match find_first(rest, ' ') {
                Some(j) => {
                    proof {
                        let w = choose|w: int| is_first_index_of(rest@, ' ', w);
                        lemma_first_index_unique(rest@, ' ', w, j as int);
                    }
                    rest.substring_char(0, j)
                },
                None => {
                    proof {
                        if exists|j: int| is_first_index_of(rest@, ' ', j) {
                            let j = choose|j: int| is_first_index_of(rest@, ' ', j);
                            assert(seq_contains_char(rest@, ' '));
                        }
                    }
                    rest
                },
            };
            Some(Remote { name: name.to_owned(), url: url.to_owned() })
        },
        None => {
            proof {
                if exists|i: int| is_first_index_of(line@, '\t', i) {
                    let i = choose|i: int| is_first_index_of(line@, '\t', i);
                    assert(seq_contains_char(line@, '\t'));
                }
            }
            None
        },
    }
}

/// Read a whole `git remote -v` listing.
pub fn parse_remotes(out: &str) -> (r: Vec<Remote>)
    ensures
        remotes_views(r@) == parse_remotes_spec(out@),
    decreases out@.len(),
{
    let n = out.unicode_len();
    if n == 0 {
        let r = Vec::<Remote>::new();
        assert(remotes_views(r@) =~= parse_remotes_spec(out@));
        return r;
    }
    match find_first(out, '\n') {
        Some(i) => {
            proof {
                let w = choose|w: int| is_first_index_of(out@, '\n', w);
                lemma_first_index_unique(out@, '\n', w, i as int);
            }
            let head = out.substring_char(0, i);
            let tail = out.substring_char(i + 1, n);
            let mut rest = parse_remotes(tail);
            match parse_line(head) {
                Some(rem) => {
                    let ghost old_rest = rest@;
                    let ghost remv = rem@;
                    proof {
                        old_rest.insert_ensures(0, rem);
                    }
                    rest.insert(0, rem);
                    assert(remotes_views(rest@) =~= seq![remv] + remotes_views(old_rest)) by {
                        assert forall|k: int| 0 <= k < rest@.len() implies remotes_views(rest@)[k]
                            == (seq![remv] + remotes_views(old_rest))[k] by {
                            if k > 0 {
                                assert(rest@[k] == old_rest[k - 1]);
                            }
                        }
                    }
                    assert(remotes_views(rest@) =~= parse_remotes_spec(out@));
                    rest
                },
                None => {
                    assert(remotes_views(rest@) =~= parse_remotes_spec(out@));
                    rest
                },
            }
        },
        None => {
            proof {
                if exists|i: int| is_first_index_of(out@, '\n', i) {
                    let i = choose|i: int| is_first_index_of(out@, '\n', i);
                    assert(seq_contains_char(out@, '\n'));
                }
            }
            match parse_line(out) {
                Some(rem) => {
                    let mut r = Vec::<Remote>::new();
                    r.push(rem);
                    assert(remotes_views(r@) =~= parse_remotes_spec(out@));
                    r
                },
                None => {
                    let r = Vec::<Remote>::new();
                    assert(remotes_views(r@) =~= parse_remotes_spec(out@));
                    r
                },
            }
        },
    }
}

/// Does this remote's URL contain the query as a substring?
pub open spec fn url_matches(r: Remote, q: Seq<char>) -> bool {
    contains_seq(r.url@, q)
}

/// `i` is the position of the first listed remote whose URL matches.
pub open spec fn is_first_match(rs: Seq<Remote>, q: Seq<char>, i: int) -> bool {
    &&& 0 <= i < rs.len()
    &&& url_matches(rs[i], q)
    &&& forall|j: int| 0 <= j < i ==> !url_matches(rs[j], q)
}

/// Which remote does `unlink` remove? The first listed remote whose URL
/// contains `query` — unless that remote is `origin`, which is protected and
/// is never removed, or no remote matches at all.
pub fn select_unlink_target(remotes: &Vec<Remote>, query: &str) -> (r: Result<
    String,
    SpeculoError,
>)
    ensures
        (forall|i: int| 0 <= i < remotes@.len() ==> !url_matches(remotes@[i], query@)) <==> (r
            == Err::<String, SpeculoError>(SpeculoError::NotFound)),
        forall|i: int| #[trigger]
            is_first_match(remotes@, query@, i) ==> {
                &&& (remotes@[i].name@ == "origin"@ ==> r == Err::<String, SpeculoError>(
                    SpeculoError::ProtectedRemote,
                ))
                &&& (remotes@[i].name@ != "origin"@ ==> (r matches Ok(n) && n@
                    == remotes@[i].name@))
            },
        r matches Ok(n) ==> n@ != "origin"@,
        r matches Err(e) ==> e == SpeculoError::NotFound || e == SpeculoError::ProtectedRemote,
{
    let origin: String = "origin".to_owned();
    let mut i: usize = 0;
    while i < remotes.len()
        invariant
            i <= remotes@.len(),
            origin@ == "origin"@,
            forall|j: int| 0 <= j < i ==> !url_matches(remotes@[j], query@),
        decreases remotes@.len() - i,
    {
        if contains_substr(remotes[i].url.as_str(), query) {
            proof {
                assert(is_first_match(remotes@, query@, i as int));
                assert forall|k: int| is_first_match(remotes@, query@, k) implies k
                    == i as int by {
                    if k < i as int {
                        assert(url_matches(remotes@[k], query@));
                    }
                    if k > i as int {
                        assert(!url_matches(remotes@[i as int], query@));
                    }
                }
            }
            if remotes[i].name == origin {
                return Err(SpeculoError::ProtectedRemote);
            }
            return Ok(remotes[i].name.clone());
        }
        i = i + 1;
    }
    Err(SpeculoError::NotFound)
}

/// Wherever some remote matches, a first match exists: the selection above
/// is decided on every listing.
pub proof fn lemma_first_match_exists(rs: Seq<Remote>, q: Seq<char>, i: int)
    requires
        0 <= i < rs.len(),
        url_matches(rs[i], q),
    ensures
        exists|f: int| is_first_match(rs, q, f),
    decreases i,
{
    if exists|j: int| 0 <= j < i && url_matches(rs[j], q) {
        let j = choose|j: int| 0 <= j < i && url_matches(rs[j], q);
        lemma_first_match_exists(rs, q, j);
    } else {
        assert(is_first_match(rs, q, i));
    }
}

} // verus!
