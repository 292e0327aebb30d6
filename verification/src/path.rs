//! Joining path components.
use vstd::prelude::*;
use crate::text::{chars_of, push_char, push_str};

verus! {

/// Whether `c` separates path components on some platform.
pub open spec fn is_sep(c: char) -> bool {
    c == '/' || c == '\\'
}

/// `a` and `b` joined: directly when `a` ends or `b` starts with a
/// separator, with `sep` between them otherwise.
pub open spec fn joined(a: Seq<char>, b: Seq<char>, sep: char) -> Seq<char> {
    if (a.len() > 0 && is_sep(a.last())) || (b.len() > 0 && is_sep(b[0])) {
        a + b
    } else {
        a + seq![sep] + b
    }
}

/// The separator of path components on this platform
/// (`std::path::MAIN_SEPARATOR`, '/' on Unix and '\' on Windows).
#[verifier::external_body]
pub(crate) fn main_separator() -> (c: char)
    ensures
        is_sep(c),
{
    std::path::MAIN_SEPARATOR
}

/// Joins `a` and `b` with `sep` unless one of them already supplies a separator.
pub fn join_with_separator(a: &str, b: &str, sep: char) -> (r: String)
    ensures
        r@ == joined(a@, b@, sep),
        b@.len() > 0 && (b@[0] == '/' || b@[0] == '\\') ==> r@ == a@ + b@,
        a@.len() > 0 && (a@.last() == '/' || a@.last() == '\\') ==> r@ == a@ + b@,
        !(b@.len() > 0 && (b@[0] == '/' || b@[0] == '\\')) && !(a@.len() > 0 && (a@.last() == '/'
            || a@.last() == '\\')) ==> r@ == a@ + seq![sep] + b@,
{
    let ac = chars_of(a);
    let bc = chars_of(b);
    let a_ends = ac.len() > 0 && (ac[ac.len() - 1] == '/' || ac[ac.len() - 1] == '\\');
    let b_starts = bc.len() > 0 && (bc[0] == '/' || bc[0] == '\\');
    let mut r = a.to_string();
    if !(a_ends || b_starts) {
        push_char(&mut r, sep);
    }
    push_str(&mut r, b);
    r
}

/// Joins two path components with this platform's separator, unless one of
/// them already supplies a separator.
pub fn join(a: &str, b: &str) -> (r: String)
    ensures
        exists|sep: char| is_sep(sep) && r@ == joined(a@, b@, sep),
        b@.len() > 0 && (b@[0] == '/' || b@[0] == '\\') ==> r@ == a@ + b@,
        a@.len() > 0 && (a@.last() == '/' || a@.last() == '\\') ==> r@ == a@ + b@,
        !(b@.len() > 0 && (b@[0] == '/' || b@[0] == '\\')) && !(a@.len() > 0 && (a@.last() == '/'
            || a@.last() == '\\')) ==> exists|sep: char|
            (sep == '/' || sep == '\\') && r@ == a@ + seq![sep] + b@,
{
    let sep = main_separator();
    join_with_separator(a, b, sep)
}

/// Law: a component that begins with a separator is joined directly,
/// whatever the separator: no separator is doubled on that side.
pub proof fn law_join_keeps_leading_separator(a: Seq<char>, b: Seq<char>, sep: char)
    requires
        b.len() > 0,
        b[0] == '/' || b[0] == '\\',
    ensures
        joined(a, b, sep) == a + b,
{
}

/// Law: a component that ends with a separator is joined directly.
pub proof fn law_join_keeps_trailing_separator(a: Seq<char>, b: Seq<char>, sep: char)
    requires
        a.len() > 0,
        a.last() == '/' || a.last() == '\\',
    ensures
        joined(a, b, sep) == a + b,
{
}

/// Law: otherwise exactly one separator goes between them, and both
/// components stay whole around it.
pub proof fn law_join_adds_one_separator(a: Seq<char>, b: Seq<char>, sep: char)
    requires
        !(a.len() > 0 && (a.last() == '/' || a.last() == '\\')),
        !(b.len() > 0 && (b[0] == '/' || b[0] == '\\')),
    ensures
        joined(a, b, sep) == a + seq![sep] + b,
        joined(a, b, sep).len() == a.len() + b.len() + 1,
        joined(a, b, sep)[a.len() as int] == sep,
{
}

} // verus!
