//! Reading command-line values and file names with regular expressions.
use vstd::prelude::*;
use crate::numbers::{parse_i32, parse_i32_chars, parse_u32, parse_u32_chars, parse_usize, parse_usize_chars};
use crate::numbers::{law_dec_int_reads_back, law_dec_nat_reads_back, parse_signed};
use crate::text::{chars_of, dec_int, dec_nat, push_str};

verus! {

broadcast use vstd::string::group_string_axioms;

/// What compiling `pattern` with `regex::Regex::new` and taking the
/// captures of its first match in `text` give: `None` when the pattern does
/// not compile, `Some(None)` when it does not match, and otherwise the text
/// of each group (group 0 is the whole match), `None` for a group that took
/// no part in the match.
pub uninterp spec fn regex_captures_of(pattern: Seq<char>, text: Seq<char>) -> Option<
    Option<Seq<Option<Seq<char>>>>,
>;

/// The groups of a match as sequences of characters.
pub open spec fn groups_view(v: Seq<Option<String>>) -> Seq<Option<Seq<char>>> {
    v.map_values(
        |g: Option<String>|
            match g {
                Some(s) => Some(s@),
                None => None,
            },
    )
}

/// The captures as sequences of characters.
pub open spec fn captures_view(r: Option<Option<Vec<Option<String>>>>) -> Option<
    Option<Seq<Option<Seq<char>>>>,
> {
    match r {
        None => None,
        Some(None) => Some(None),
        Some(Some(v)) => Some(Some(groups_view(v@))),
    }
}

/// Compiles `pattern` (`regex::Regex::new`) and takes the captures of its
/// first match in `text` (`Regex::captures`), each group as a string. The
/// contract names the result `regex_captures_of` of the two arguments and
/// says nothing more of it.
#[verifier::external_body]
pub(crate) fn regex_captures(pattern: &str, text: &str) -> (r: Option<Option<Vec<Option<String>>>>)
    ensures
        captures_view(r) == regex_captures_of(pattern@, text@),
{
    match regex::Regex::new(pattern) {
        Ok(re) => Some(
            re.captures(text).map(|c| c.iter().map(|m| m.map(|m| m.as_str().to_string())).collect()),
        ),
        Err(_) => None,
    }
}

/// Group `i` of a match, `None` when the match has no such group.
pub open spec fn group(caps: Seq<Option<Seq<char>>>, i: int) -> Option<Seq<char>> {
    if 0 <= i < caps.len() {
        caps[i]
    } else {
        None
    }
}

pub(crate) fn group_chars(caps: &Vec<Option<String>>, i: usize) -> (r: Option<Vec<char>>)
    ensures
        match group(groups_view(caps@), i as int) {
            Some(s) => r matches Some(v) && v@ == s,
            None => r is None,
        },
{
    if i < caps.len() {
        match &caps[i] {
            Some(s) => Some(chars_of(s.as_str())),
            None => None,
        }
    } else {
        None
    }
}

/// Why a line range was refused.
#[derive(Debug, Clone, Copy, PartialEq, Eq, Structural)]
pub enum RangeError {
    /// The pattern did not compile.
    BadPattern,
    /// The value is not of the form `n..n`.
    NoMatch,
    /// The first number is not a `usize`.
    BadFrom,
    /// The second number is not a `usize`.
    BadTo,
    /// The second number is not greater than the first.
    NotIncreasing,
}

/// The range that the captures of `^(\d+)?\.\.(\d+)?$` give: the first
/// number (0 when left out) up to the second (`usize::MAX` when left out),
/// which must be greater.
pub open spec fn range_result(caps: Option<Seq<Option<Seq<char>>>>) -> Result<(usize, usize), RangeError> {
    match caps {
        None => Err(RangeError::NoMatch),
        Some(c) => {
            let from = match group(c, 1) {
                Some(s) => parse_usize(s),
                None => Some(0usize),
            };
            match from {
                None => Err(RangeError::BadFrom),
                Some(f) => match group(c, 2) {
                    Some(s) => match parse_usize(s) {
                        None => Err(RangeError::BadTo),
                        Some(t) => if t <= f {
                            Err(RangeError::NotIncreasing)
                        } else {
                            Ok((f, t))
                        },
                    },
                    None => Ok((f, usize::MAX)),
                },
            }
        },
    }
}

/// The range that the captures of a `--range` value give (see `range_result`).
pub fn parse_range(caps: Option<Vec<Option<String>>>) -> (r: Result<(usize, usize), RangeError>)
    ensures
        r == range_result(
            match caps {
                Some(v) => Some(groups_view(v@)),
                None => None,
            },
        ),
{
    match caps {
        None => Err(RangeError::NoMatch),
        Some(c) => {
            let from = match group_chars(&c, 1) {
                Some(s) => match parse_usize_chars(&s) {
                    Some(f) => f,
                    None => {
                        return Err(RangeError::BadFrom);
                    },
                },
                None => 0,
            };
            match group_chars(&c, 2) {
                Some(s) => match parse_usize_chars(&s) {
                    None => Err(RangeError::BadTo),
                    Some(t) => if t <= from {
                        Err(RangeError::NotIncreasing)
                    } else {
                        Ok((from, t))
                    },
                },
                None => Ok((from, usize::MAX)),
            }
        },
    }
}

/// Reads a line range written `from..to`, either number left out at will.
pub fn range_of(s: &str) -> (r: Result<(usize, usize), RangeError>)
    ensures
        r == match regex_captures_of("^(\\d+)?\\.\\.(\\d+)?$"@, s@) {
            None => Err(RangeError::BadPattern),
            Some(c) => range_result(c),
        },
{
    match regex_captures("^(\\d+)?\\.\\.(\\d+)?$", s) {
        None => Err(RangeError::BadPattern),
        Some(caps) => parse_range(caps),
    }
}

/// Why a position was refused.
#[derive(Debug, Clone, Copy, PartialEq, Eq, Structural)]
pub enum PointError {
    /// The pattern did not compile.
    BadPattern,
    /// The value is not of the form `x,y`.
    NoMatch,
    /// The first number is not an `i32`.
    BadX,
    /// The second number is not an `i32`.
    BadY,
}

/// The position that the captures of `^(-?\d+),(-?\d+)$` give.
pub open spec fn point_result(caps: Option<Seq<Option<Seq<char>>>>) -> Result<(i32, i32), PointError> {
    match caps {
        None => Err(PointError::NoMatch),
        Some(c) => match (
            match group(c, 1) {
                Some(s) => parse_i32(s),
                None => None,
            },
            match group(c, 2) {
                Some(s) => parse_i32(s),
                None => None,
            },
        ) {
            (None, _) => Err(PointError::BadX),
            (Some(_), None) => Err(PointError::BadY),
            (Some(x), Some(y)) => Ok((x, y)),
        },
    }
}

pub(crate) fn group_i32(caps: &Vec<Option<String>>, i: usize) -> (r: Option<i32>)
    ensures
        r == match group(groups_view(caps@), i as int) {
            Some(s) => parse_i32(s),
            None => None,
        },
{
    match group_chars(caps, i) {
        Some(s) => parse_i32_chars(&s),
        None => None,
    }
}

/// The position that the captures of a position value give (see `point_result`).
pub fn parse_point(caps: Option<Vec<Option<String>>>) -> (r: Result<(i32, i32), PointError>)
    ensures
        r == point_result(
            match caps {
                Some(v) => Some(groups_view(v@)),
                None => None,
            },
        ),
{
    match caps {
        None => Err(PointError::NoMatch),
        Some(c) => {
            let x = group_i32(&c, 1);
            let y = group_i32(&c, 2);
            match x {
                None => Err(PointError::BadX),
                Some(xv) => match y {
                    None => Err(PointError::BadY),
                    Some(yv) => Ok((xv, yv)),
                },
            }
        },
    }
}

/// Reads a position written `x,y`.
pub fn point_of(s: &str) -> (r: Result<(i32, i32), PointError>)
    ensures
        r == match regex_captures_of("^(-?\\d+),(-?\\d+)$"@, s@) {
            None => Err(PointError::BadPattern),
            Some(c) => point_result(c),
        },
{
    match regex_captures("^(-?\\d+),(-?\\d+)$", s) {
        None => Err(PointError::BadPattern),
        Some(caps) => parse_point(caps),
    }
}

/// Whether `k` is a word of lower-case letters (a to z, æ, ø, å, é),
/// possibly two such runs joined by a hyphen.
pub fn is_word(k: &str) -> (b: bool)
    ensures
        b == (regex_captures_of("^[a-zæøåé]+\\-?[a-zæøåé]*$"@, k@) matches Some(Some(_))),
{
    match regex_captures("^[a-zæøåé]+\\-?[a-zæøåé]*$", k) {
        Some(Some(_)) => true,
        _ => false,
    }
}

/// Law: a range read from the numerals of two numbers is those numbers
/// when the second is greater, and is refused as not increasing otherwise;
/// a range left open at the start begins at 0 and one left open at the end
/// reaches `usize::MAX`.
pub proof fn law_range_reads_numbers(whole: Option<Seq<char>>, f: usize, t: usize)
    ensures
        range_result(Some(seq![whole, Some(dec_nat(f as nat)), Some(dec_nat(t as nat))])) == if f < t {
            Ok::<(usize, usize), RangeError>((f, t))
        } else {
            Err(RangeError::NotIncreasing)
        },
        t > 0 ==> range_result(Some(seq![whole, None, Some(dec_nat(t as nat))])) == Ok::<
            (usize, usize),
            RangeError,
        >((0usize, t)),
        f < usize::MAX ==> range_result(Some(seq![whole, Some(dec_nat(f as nat)), None])) == Ok::<
            (usize, usize),
            RangeError,
        >((f, usize::MAX)),
        range_result(None) == Err::<(usize, usize), RangeError>(RangeError::NoMatch),
{
    law_dec_nat_reads_back(f as nat);
    law_dec_nat_reads_back(t as nat);
}

/// Law: a position read from the numerals of two numbers, with their
/// signs, is those numbers.
pub proof fn law_point_reads_numbers(whole: Option<Seq<char>>, x: i32, y: i32)
    ensures
        point_result(Some(seq![whole, Some(dec_int(x as int)), Some(dec_int(y as int))])) == Ok::<
            (i32, i32),
            PointError,
        >((x, y)),
        point_result(None) == Err::<(i32, i32), PointError>(PointError::NoMatch),
{
    law_dec_int_reads_back(x as int);
    law_dec_int_reads_back(y as int);
}

} // verus!
