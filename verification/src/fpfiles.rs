//! The files of a fingerprint database: their names carry the position a
//! fingerprint was taken at, how often it matched, and a hash of its cells.
use vstd::prelude::*;
use vstd::string::StringSliceAdditionalSpecFns;
use crate::numbers::{parse_i32, parse_u32, parse_u32_chars};
use crate::patterns::{captures_view, group, group_chars, group_i32, groups_view, regex_captures, regex_captures_of};
use crate::text::{dec_int, dec_nat, push_char, push_dec, push_dec_signed, push_str};

verus! {

broadcast use vstd::string::group_string_axioms;

/// What `murmur3::murmur3_32` gives for the bytes `data` and the seed `seed`.
pub uninterp spec fn murmur3_32_of(data: Seq<u8>, seed: u32) -> u32;

/// The 32-bit MurmurHash3 of `data` (`murmur3::murmur3_32`, reading the
/// bytes from a slice). The contract names the result `murmur3_32_of` of
/// the bytes and the seed and says nothing more of it. The crate counts the
/// bytes it read in a `u32`, so the data is at most `u32::MAX` bytes long.
#[verifier::external_body]
fn murmur3_32_bytes(data: &[u8], seed: u32) -> (h: u32)
    requires
        data@.len() <= u32::MAX,
    ensures
        h == murmur3_32_of(data@, seed),
{
    murmur3::murmur3_32(&mut &data[..], seed)
}

/// The lower-case hexadecimal digit for `d` (0 to 15).
pub open spec fn hex_digit(d: nat) -> char {
    if d < 10 {
        crate::text::digit_char(d)
    } else if d == 10 {
        'a'
    } else if d == 11 {
        'b'
    } else if d == 12 {
        'c'
    } else if d == 13 {
        'd'
    } else if d == 14 {
        'e'
    } else {
        'f'
    }
}

/// The lower-case hexadecimal numeral of `n`, without leading zeros (what
/// `{:x}` writes).
pub open spec fn hex_nat(n: nat) -> Seq<char>
    decreases n,
{
    if n < 16 {
        seq![hex_digit(n)]
    } else {
        hex_nat(n / 16).push(hex_digit(n % 16))
    }
}

fn hex_digit_of(d: u32) -> (c: char)
    requires
        d < 16,
    ensures
        c == hex_digit(d as nat),
{
    if d < 10 {
        let cs = ['0', '1', '2', '3', '4', '5', '6', '7', '8', '9'];
        let c = cs[d as usize];
        assert(c == crate::text::digit_char(d as nat));
        c
    } else if d == 10 {
        'a'
    } else if d == 11 {
        'b'
    } else if d == 12 {
        'c'
    } else if d == 13 {
        'd'
    } else if d == 14 {
        'e'
    } else {
        'f'
    }
}

fn push_hex(s: &mut String, n: u32)
    ensures
        final(s)@ == old(s)@ + hex_nat(n as nat),
    decreases n,
{
    if n >= 16 {
        push_hex(s, n / 16);
    }
    push_char(s, hex_digit_of(n % 16));
}

/// The hash that names a fingerprint file: the MurmurHash3 (seed 0) of the
/// text's bytes, in lower-case hexadecimal.
pub fn hash_32(s: &str) -> (r: String)
    requires
        s.spec_bytes().len() <= u32::MAX,
    ensures
        r@ == hex_nat(murmur3_32_of(s.spec_bytes(), 0) as nat),
{
    let v = murmur3_32_bytes(s.as_bytes(), 0);
    hex_of(v)
}

/// The lower-case hexadecimal numeral of `n` (what `{:x}` writes).
pub fn hex_of(n: u32) -> (r: String)
    ensures
        r@ == hex_nat(n as nat),
{
    let mut r = String::new();
    push_hex(&mut r, n);
    r
}

/// The name of the file that stores a new fingerprint.
pub open spec fn fingerprint_file_text(
    version: Seq<char>,
    x: i32,
    y: i32,
    width: u32,
    height: u32,
    hash: Seq<char>,
) -> Seq<char> {
    "fp_"@ + version + "_x"@ + dec_int(x as int) + "_y"@ + dec_int(y as int) + "_w"@ + dec_nat(
        width as nat,
    ) + "_h"@ + dec_nat(height as nat) + "_mc0_"@ + hash + ".txt"@
}

/// The name of the file that stores a new fingerprint, taken with the
/// label `version` at `(x, y)` over `width` by `height` pixels, whose cells
/// hash to `hash`; it has matched no time yet.
pub fn fingerprint_file_name(
    version: &str,
    x: i32,
    y: i32,
    width: u32,
    height: u32,
    hash: &str,
) -> (r: String)
    ensures
        r@ == fingerprint_file_text(version@, x, y, width, height, hash@),
{
    let mut r = String::new();
    push_str(&mut r, "fp_");
    push_str(&mut r, version);
    push_str(&mut r, "_x");
    push_dec_signed(&mut r, x as i128);
    push_str(&mut r, "_y");
    push_dec_signed(&mut r, y as i128);
    push_str(&mut r, "_w");
    push_dec(&mut r, width as u128);
    push_str(&mut r, "_h");
    push_dec(&mut r, height as u128);
    push_str(&mut r, "_mc0_");
    push_str(&mut r, hash);
    push_str(&mut r, ".txt");
    r
}

/// The pattern of the names of files that store a fingerprint with the
/// hash `hash`.
pub open spec fn stored_pattern(hash: Seq<char>) -> Seq<char> {
    "^fp.+?"@ + hash + "\\.txt$"@
}

/// Whether the file name `name` is that of a stored fingerprint with the
/// hash `hash`: it matches `^fp.+?<hash>\.txt$`.
pub fn names_fingerprint(name: &str, hash: &str) -> (b: bool)
    ensures
        b == (regex_captures_of(stored_pattern(hash@), name@) matches Some(Some(_))),
{
    let mut pattern = String::new();
    push_str(&mut pattern, "^fp.+?");
    push_str(&mut pattern, hash);
    push_str(&mut pattern, "\\.txt$");
    match regex_captures(pattern.as_str(), name) {
        Some(Some(_)) => true,
        _ => false,
    }
}

/// What the name of a stored fingerprint file tells: the name with `{mc}`
/// standing for the match count, the position, and the match count.
#[derive(Debug)]
pub struct FingerprintName {
    pub mask: String,
    pub x: i32,
    pub y: i32,
    pub match_count: u32,
}

/// Why a fingerprint file name was refused.
#[derive(Debug, Clone, Copy, PartialEq, Eq, Structural)]
pub enum NameError {
    /// The pattern did not compile.
    BadPattern,
    /// A group of the pattern took no part in the match.
    MissingGroup,
    /// The x position is not an `i32`.
    BadX,
    /// The y position is not an `i32`.
    BadY,
    /// The match count is not a `u32`.
    BadCount,
}

/// The file name pattern of stored fingerprints.
pub open spec fn name_pattern() -> Seq<char> {
    "^(fp_[^_]+_x)(-?\\d+)_y(-?\\d+)(_w\\d+_h\\d+)_mc(\\d+)(_.+?)\\.txt$"@
}

/// The name mask that the groups `c` of a match of `name_pattern` give.
pub open spec fn mask_of(c: Seq<Option<Seq<char>>>) -> Seq<char> {
    group(c, 1).unwrap() + group(c, 2).unwrap() + "_y"@ + group(c, 3).unwrap() + group(
        c,
        4,
    ).unwrap() + "_mc{mc}"@ + group(c, 6).unwrap() + ".txt"@
}

/// What the groups `c` of a match of `name_pattern` give: the mask, x, y
/// and the match count, or why they give none.
pub open spec fn name_result(c: Seq<Option<Seq<char>>>) -> Result<(Seq<char>, i32, i32, u32), NameError> {
    if group(c, 1) is None || group(c, 2) is None || group(c, 3) is None || group(c, 4) is None
        || group(c, 6) is None {
        Err(NameError::MissingGroup)
    } else if parse_i32(group(c, 2).unwrap()) is None {
        Err(NameError::BadX)
    } else if parse_i32(group(c, 3).unwrap()) is None {
        Err(NameError::BadY)
    } else if group(c, 5) is None {
        Err(NameError::MissingGroup)
    } else if parse_u32(group(c, 5).unwrap()) is None {
        Err(NameError::BadCount)
    } else {
        Ok(
            (
                mask_of(c),
                parse_i32(group(c, 2).unwrap()).unwrap(),
                parse_i32(group(c, 3).unwrap()).unwrap(),
                parse_u32(group(c, 5).unwrap()).unwrap(),
            ),
        )
    }
}

/// A fingerprint name as mathematical values.
pub open spec fn name_view(r: Result<FingerprintName, NameError>) -> Result<(Seq<char>, i32, i32, u32), NameError> {
    match r {
        Ok(n) => Ok((n.mask@, n.x, n.y, n.match_count)),
        Err(e) => Err(e),
    }
}

fn push_group(s: &mut String, caps: &Vec<Option<String>>, i: usize)
    requires
        group(groups_view(caps@), i as int) is Some,
    ensures
        final(s)@ == old(s)@ + group(groups_view(caps@), i as int).unwrap(),
{
    match &caps[i] {
        Some(g) => push_str(s, g.as_str()),
        None => {},
    }
}

/// What the groups of a match of the fingerprint file name pattern give
/// (see `name_result`).
pub fn parse_fingerprint_name(caps: &Vec<Option<String>>) -> (r: Result<FingerprintName, NameError>)
    ensures
        name_view(r) == name_result(groups_view(caps@)),
{
    let ghost c = groups_view(caps@);
    if group_chars(caps, 1).is_none() || group_chars(caps, 2).is_none() || group_chars(caps, 3).is_none()
        || group_chars(caps, 4).is_none() || group_chars(caps, 6).is_none() {
        return Err(NameError::MissingGroup);
    }
    let mut mask = String::new();
    push_group(&mut mask, caps, 1);
    push_group(&mut mask, caps, 2);
    push_str(&mut mask, "_y");
    push_group(&mut mask, caps, 3);
    push_group(&mut mask, caps, 4);
    push_str(&mut mask, "_mc{mc}");
    push_group(&mut mask, caps, 6);
    push_str(&mut mask, ".txt");
    assert(mask@ =~= mask_of(c));
    let x = match group_i32(caps, 2) {
        Some(v) => v,
        None => {
            return Err(NameError::BadX);
        },
    };
    let y = match group_i32(caps, 3) {
        Some(v) => v,
        None => {
            return Err(NameError::BadY);
        },
    };
    let mc = match group_chars(caps, 5) {
        None => {
            return Err(NameError::MissingGroup);
        },
        Some(g) => match parse_u32_chars(&g) {
            Some(v) => v,
            None => {
                return Err(NameError::BadCount);
            },
        },
    };
    Ok(FingerprintName { mask, x, y, match_count: mc })
}

/// Reads a fingerprint file name: `None` when it is not one.
pub fn fingerprint_name_of(name: &str) -> (r: Option<Result<FingerprintName, NameError>>)
    ensures
        match regex_captures_of(name_pattern(), name@) {
            None => r matches Some(Err(e)) && e == NameError::BadPattern,
            Some(None) => r is None,
            Some(Some(c)) => r matches Some(n) && name_view(n) == name_result(c),
        },
{
    match regex_captures(
        "^(fp_[^_]+_x)(-?\\d+)_y(-?\\d+)(_w\\d+_h\\d+)_mc(\\d+)(_.+?)\\.txt$",
        name,
    ) {
        None => Some(Err(NameError::BadPattern)),
        Some(None) => None,
        Some(Some(caps)) => Some(parse_fingerprint_name(&caps)),
    }
}

/// The value of a lower-case hexadecimal digit.
pub open spec fn hex_digit_value(c: char) -> Option<nat> {
    if '0' <= c && c <= '9' {
        Some((c as u32 - '0' as u32) as nat)
    } else if 'a' <= c && c <= 'f' {
        Some((c as u32 - 'a' as u32 + 10) as nat)
    } else {
        None
    }
}

/// The value of a string of lower-case hexadecimal digits, `None` when a
/// character is no such digit.
pub open spec fn hex_value(s: Seq<char>) -> Option<nat>
    decreases s.len(),
{
    if s.len() == 0 {
        Some(0)
    } else {
        match (hex_value(s.drop_last()), hex_digit_value(s.last())) {
            (Some(v), Some(d)) => Some(v * 16 + d),
            _ => None,
        }
    }
}

proof fn lemma_hex_digit_round_trip(d: nat)
    requires
        d < 16,
    ensures
        hex_digit_value(hex_digit(d)) == Some(d),
{
    if d < 10 {
        if d == 0 {
        } else if d == 1 {
        } else if d == 2 {
        } else if d == 3 {
        } else if d == 4 {
        } else if d == 5 {
        } else if d == 6 {
        } else if d == 7 {
        } else if d == 8 {
        } else {
        }
    }
}

/// Law: reading back the hexadecimal numeral of a number gives the number,
/// and the numeral of a positive number has no leading zero.
pub proof fn law_hex_reads_back(n: nat)
    ensures
        hex_value(hex_nat(n)) == Some(n),
        n > 0 ==> hex_nat(n)[0] != '0',
    decreases n,
{
    if n < 16 {
        lemma_hex_digit_round_trip(n);
        assert(hex_nat(n).drop_last() =~= Seq::<char>::empty());
        assert(hex_nat(n).last() == hex_digit(n));
        assert(hex_value(Seq::<char>::empty()) == Some(0nat));
        assert(hex_value(hex_nat(n)) == Some(0nat * 16 + n));
    } else {
        law_hex_reads_back(n / 16);
        lemma_hex_digit_round_trip(n % 16);
        let p = hex_nat(n / 16);
        let s = p.push(hex_digit(n % 16));
        assert(s.drop_last() =~= p);
        assert(s.last() == hex_digit(n % 16));
        assert(hex_value(s) == Some((n / 16) * 16 + n % 16));
        assert(hex_nat(n) == s);
        assert(s[0] == p[0]);
    }
}

} // verus!
