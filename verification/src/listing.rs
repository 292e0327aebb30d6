//! The directory lister's output: the matching directories, optionally
//! ordered by path or by creation time, one per line.
use vstd::prelude::*;
use crate::path::{is_sep, join_with_separator, joined, main_separator};
use crate::sorting::{insert_pos, insertion_sorted, law_insertion_sorted, lemma_insert_pos, sorted_by, total_preorder};
use crate::text::{chars_eq, chars_le, chars_of, lemma_chars_le_total, lemma_chars_le_trans, push_str, str_le};

verus! {

/// A directory whose name matched: its name, the path of the directory
/// that holds it, and when it was created (in nanoseconds from the Unix
/// epoch, negative before it).
pub struct DirMatch {
    pub name: String,
    pub path: String,
    pub created: i128,
}

/// A match as mathematical values.
pub struct DirMatchView {
    pub name: Seq<char>,
    pub path: Seq<char>,
    pub created: int,
}

impl DirMatch {
    pub open spec fn view(&self) -> DirMatchView {
        DirMatchView { name: self.name@, path: self.path@, created: self.created as int }
    }
}

pub open spec fn matches_view(v: Seq<DirMatch>) -> Seq<DirMatchView> {
    v.map_values(|m: DirMatch| m.view())
}

/// How the matches are ordered.
#[derive(Debug, Clone, Copy, PartialEq, Eq, Structural)]
pub enum SortBy {
    /// By path, in the order of strings.
    Name,
    /// By creation time, the most recent first.
    CreationTime,
}

/// The ordering that a `--sort_by` value names: "name", or "creation_time"
/// or "ct"; `None` for anything else.
pub open spec fn sort_by_named(s: Seq<char>) -> Option<SortBy> {
    if s == "name"@ {
        Some(SortBy::Name)
    } else if s == "creation_time"@ || s == "ct"@ {
        Some(SortBy::CreationTime)
    } else {
        None
    }
}

/// Reads a `--sort_by` value (`sort_by_named`).
pub fn sort_by_of(s: &str) -> (r: Option<SortBy>)
    ensures
        r == sort_by_named(s@),
{
    let cs = chars_of(s);
    if chars_eq(cs.as_slice(), chars_of("name").as_slice()) {
        Some(SortBy::Name)
    } else if chars_eq(cs.as_slice(), chars_of("creation_time").as_slice())
        || chars_eq(cs.as_slice(), chars_of("ct").as_slice()) {
        Some(SortBy::CreationTime)
    } else {
        None
    }
}

/// What the lister does on meeting a directory called `name` when looking
/// for `wanted`: whether it is a match, and whether to look inside it (a
/// match only when `look_inside`).
pub fn visit_directory(name: &str, wanted: &str, look_inside: bool) -> (r: (bool, bool))
    ensures
        r.0 == (name@ == wanted@),
        r.1 == (name@ != wanted@ || look_inside),
{
    let matched = chars_eq(chars_of(name).as_slice(), chars_of(wanted).as_slice());
    (matched, !matched || look_inside)
}

/// `a` may come before `b` when ordering `by`.
pub open spec fn precedes(a: DirMatchView, b: DirMatchView, by: SortBy) -> bool {
    match by {
        SortBy::Name => chars_le(a.path, b.path),
        SortBy::CreationTime => a.created >= b.created,
    }
}

/// `precedes` for the ordering `by`, as a relation.
pub open spec fn precedes_by(by: SortBy) -> spec_fn(DirMatchView, DirMatchView) -> bool {
    |a: DirMatchView, b: DirMatchView| precedes(a, b, by)
}

proof fn lemma_precedes_preorder(by: SortBy)
    ensures
        total_preorder(precedes_by(by)),
{
    assert forall|a: DirMatchView, b: DirMatchView| #[trigger] precedes_by(by)(a, b) || precedes_by(by)(b, a) by {
        if by == SortBy::Name {
            lemma_chars_le_total(a.path, b.path);
        }
    }
    assert forall|a: DirMatchView, b: DirMatchView, c: DirMatchView|
        #[trigger] precedes_by(by)(a, b) && #[trigger] precedes_by(by)(b, c) implies precedes_by(by)(a, c) by {
        if by == SortBy::Name {
            lemma_chars_le_trans(a.path, b.path, c.path);
        }
    }
}

fn precedes_exec(a: &DirMatch, b: &DirMatch, by: SortBy) -> (r: bool)
    ensures
        r == precedes(a.view(), b.view(), by),
{
    match by {
        SortBy::Name => str_le(a.path.as_str(), b.path.as_str()),
        SortBy::CreationTime => a.created >= b.created,
    }
}

/// The matches put in order `by`: a stable sort, matches that tie keeping
/// their order. The result is ordered and holds each match as often as `v`
/// does.
pub fn order_matches(v: &Vec<DirMatch>, by: SortBy) -> (out: Vec<DirMatch>)
    ensures
        matches_view(out@) == insertion_sorted(matches_view(v@), precedes_by(by)),
        sorted_by(matches_view(out@), precedes_by(by)),
        matches_view(out@).to_multiset() == matches_view(v@).to_multiset(),
{
    let ghost src = matches_view(v@);
    let ghost le = precedes_by(by);
    let mut out: Vec<DirMatch> = Vec::new();
    let mut i: usize = 0;
    while i < v.len()
        invariant
            i <= v@.len(),
            src == matches_view(v@),
            le == precedes_by(by),
            matches_view(out@) == insertion_sorted(src.take(i as int), le),
        decreases v@.len() - i,
    {
        let m = DirMatch { name: v[i].name.clone(), path: v[i].path.clone(), created: v[i].created };
        let ghost x = m.view();
        let ghost t = matches_view(out@);
        assert(x == src[i as int]);
        proof {
            lemma_insert_pos(t, x, le, 0);
        }
        let mut p: usize = 0;
        while p < out.len() && precedes_exec(&out[p], &m, by)
            invariant
                p <= out@.len(),
                x == m.view(),
                t == matches_view(out@),
                le == precedes_by(by),
                0 <= p <= insert_pos(t, x, le, 0),
                insert_pos(t, x, le, 0) == insert_pos(t, x, le, p as int),
            decreases out@.len() - p,
        {
            proof {
                lemma_insert_pos(t, x, le, p + 1);
            }
            p = p + 1;
        }
        out.insert(p, m);
        proof {
            assert(matches_view(out@) =~= t.insert(p as int, x));
            assert(src.take(i + 1).drop_last() =~= src.take(i as int));
            assert(src.take(i + 1).last() == x);
        }
        i = i + 1;
    }
    assert(src.take(i as int) =~= src);
    proof {
        lemma_precedes_preorder(by);
        law_insertion_sorted(src, le);
    }
    out
}

/// The line shown for a match: its path alone when the name is excluded,
/// else the path joined with the name by `sep`.
pub open spec fn match_line(m: DirMatchView, exclude_name: bool, sep: char) -> Seq<char> {
    if exclude_name {
        m.path
    } else {
        joined(m.path, m.name, sep)
    }
}

/// The lines of the matches joined by newlines, with no newline at the end.
pub open spec fn listing_text(ms: Seq<DirMatchView>, exclude_name: bool, sep: char) -> Seq<char>
    decreases ms.len(),
{
    if ms.len() == 0 {
        Seq::empty()
    } else if ms.len() == 1 {
        match_line(ms[0], exclude_name, sep)
    } else {
        listing_text(ms.drop_last(), exclude_name, sep) + "\n"@ + match_line(ms.last(), exclude_name, sep)
    }
}

/// The text listing the matches (`listing_text`, with this platform's
/// path separator).
pub fn listing(v: &Vec<DirMatch>, exclude_name: bool) -> (r: String)
    ensures
        exists|sep: char| is_sep(sep) && r@ == listing_text(matches_view(v@), exclude_name, sep),
{
    let sep = main_separator();
    let ghost ms = matches_view(v@);
    let mut z = String::new();
    let mut i: usize = 0;
    while i < v.len()
        invariant
            i <= v@.len(),
            ms == matches_view(v@),
            z@ == listing_text(ms.take(i as int), exclude_name, sep),
        decreases v@.len() - i,
    {
        assert(ms.take(i + 1).drop_last() =~= ms.take(i as int));
        assert(ms.take(i + 1).last() == v@[i as int].view());
        if i > 0 {
            push_str(&mut z, "\n");
        }
        if exclude_name {
            push_str(&mut z, v[i].path.as_str());
        } else {
            let line = join_with_separator(v[i].path.as_str(), v[i].name.as_str(), sep);
            push_str(&mut z, line.as_str());
        }
        i = i + 1;
    }
    assert(ms.take(i as int) =~= ms);
    z
}

} // verus!
