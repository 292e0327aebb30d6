//! Splitting judge input into lines and columns.
use vstd::prelude::*;
use crate::text::{chars_of, string_of};

verus! {

/// `line` without a carriage return at its end.
pub open spec fn strip_cr(line: Seq<char>) -> Seq<char> {
    if line.len() > 0 && line.last() == '\r' {
        line.drop_last()
    } else {
        line
    }
}

/// The lines of `cur + s`, where `cur` is the part of the current line read
/// so far: split at '\n', each line that ended in "\r\n" without its '\r',
/// and no empty line after a final '\n' (what `str::lines` gives).
pub open spec fn lines_from(cur: Seq<char>, s: Seq<char>) -> Seq<Seq<char>>
    decreases s.len(),
{
    if s.len() == 0 {
        if cur.len() == 0 {
            Seq::empty()
        } else {
            seq![cur]
        }
    } else if s[0] == '\n' {
        seq![strip_cr(cur)] + lines_from(Seq::empty(), s.skip(1))
    } else {
        lines_from(cur.push(s[0]), s.skip(1))
    }
}

/// The lines of `s`, as `str::lines` gives them.
pub open spec fn lines_of(s: Seq<char>) -> Seq<Seq<char>> {
    lines_from(Seq::empty(), s)
}

/// Whether `c` is white space in Unicode (`char::is_whitespace`).
pub open spec fn is_ws(c: char) -> bool {
    ('\u{9}' <= c && c <= '\u{d}') || c == ' ' || c == '\u{85}' || c == '\u{a0}' || c == '\u{1680}'
        || ('\u{2000}' <= c && c <= '\u{200a}') || c == '\u{2028}' || c == '\u{2029}' || c
        == '\u{202f}' || c == '\u{205f}' || c == '\u{3000}'
}

fn is_whitespace(c: char) -> (b: bool)
    ensures
        b == is_ws(c),
{
    ('\u{9}' <= c && c <= '\u{d}') || c == ' ' || c == '\u{85}' || c == '\u{a0}' || c == '\u{1680}'
        || ('\u{2000}' <= c && c <= '\u{200a}') || c == '\u{2028}' || c == '\u{2029}' || c
        == '\u{202f}' || c == '\u{205f}' || c == '\u{3000}'
}

/// The words of `cur + s`, where `cur` is the part of the current word read
/// so far: the maximal runs of characters that are not white space.
pub open spec fn words_from(cur: Seq<char>, s: Seq<char>) -> Seq<Seq<char>>
    decreases s.len(),
{
    if s.len() == 0 {
        if cur.len() == 0 {
            Seq::empty()
        } else {
            seq![cur]
        }
    } else if is_ws(s[0]) {
        (if cur.len() == 0 {
            Seq::empty()
        } else {
            seq![cur]
        }) + words_from(Seq::empty(), s.skip(1))
    } else {
        words_from(cur.push(s[0]), s.skip(1))
    }
}

/// The words of `s`, as `str::split_whitespace` gives them.
pub open spec fn words_of(s: Seq<char>) -> Seq<Seq<char>> {
    words_from(Seq::empty(), s)
}

pub open spec fn strings_view(v: Seq<String>) -> Seq<Seq<char>> {
    v.map_values(|s: String| s@)
}

proof fn lemma_push_string(v: Seq<String>, s: String)
    ensures
        strings_view(v.push(s)) == strings_view(v).push(s@),
{
    assert(strings_view(v.push(s)) =~= strings_view(v).push(s@));
}

/// Splits `s` into its lines (`str::lines`).
pub fn split_lines(s: &str) -> (r: Vec<String>)
    ensures
        strings_view(r@) == lines_of(s@),
{
    let cs = chars_of(s);
    let mut r: Vec<String> = Vec::new();
    let mut cur: Vec<char> = Vec::new();
    let mut i: usize = 0;
    assert(cs@.skip(0) =~= cs@);
    assert(cur@ =~= Seq::<char>::empty());
    assert(strings_view(r@) + lines_of(s@) =~= lines_of(s@));
    while i < cs.len()
        invariant
            cs@ == s@,
            i <= cs@.len(),
            strings_view(r@) + lines_from(cur@, cs@.skip(i as int)) == lines_of(s@),
        decreases cs@.len() - i,
    {
        assert(cs@.skip(i as int).skip(1) =~= cs@.skip(i + 1));
        if cs[i] == '\n' {
            if cur.len() > 0 && cur[cur.len() - 1] == '\r' {
                cur.pop();
            }
            let line = string_of(&cur);
            proof {
                lemma_push_string(r@, line);
            }
            r.push(line);
            assert(strings_view(r@) + lines_from(Seq::empty(), cs@.skip(i + 1)) =~= strings_view(
                r@,
            ).drop_last() + (seq![line@] + lines_from(Seq::empty(), cs@.skip(i + 1))));
            cur = Vec::new();
        } else {
            cur.push(cs[i]);
        }
        i = i + 1;
    }
    if cur.len() > 0 {
        let line = string_of(&cur);
        proof {
            lemma_push_string(r@, line);
        }
        r.push(line);
    }
    assert(strings_view(r@) =~= lines_of(s@));
    r
}

/// Splits `s` into its words (`str::split_whitespace`).
pub fn split_columns(s: &str) -> (r: Vec<String>)
    ensures
        strings_view(r@) == words_of(s@),
{
    let cs = chars_of(s);
    let mut r: Vec<String> = Vec::new();
    let mut cur: Vec<char> = Vec::new();
    let mut i: usize = 0;
    assert(cs@.skip(0) =~= cs@);
    assert(cur@ =~= Seq::<char>::empty());
    assert(strings_view(r@) + words_of(s@) =~= words_of(s@));
    while i < cs.len()
        invariant
            cs@ == s@,
            i <= cs@.len(),
            strings_view(r@) + words_from(cur@, cs@.skip(i as int)) == words_of(s@),
        decreases cs@.len() - i,
    {
        assert(cs@.skip(i as int).skip(1) =~= cs@.skip(i + 1));
        if is_whitespace(cs[i]) {
            if cur.len() > 0 {
                let word = string_of(&cur);
                proof {
                    lemma_push_string(r@, word);
                }
                r.push(word);
                assert(strings_view(r@) + words_from(Seq::empty(), cs@.skip(i + 1))
                    =~= strings_view(r@).drop_last() + (seq![word@] + words_from(
                    Seq::empty(),
                    cs@.skip(i + 1),
                )));
            } else {
                assert(Seq::<Seq<char>>::empty() + words_from(Seq::empty(), cs@.skip(i + 1))
                    =~= words_from(Seq::empty(), cs@.skip(i + 1)));
            }
            cur = Vec::new();
        } else {
            cur.push(cs[i]);
        }
        i = i + 1;
    }
    if cur.len() > 0 {
        let word = string_of(&cur);
        proof {
            lemma_push_string(r@, word);
        }
        r.push(word);
    }
    assert(strings_view(r@) =~= words_of(s@));
    r
}

} // verus!
