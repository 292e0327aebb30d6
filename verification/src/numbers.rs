//! Reading numerals: integers as `str::parse` reads them.
use vstd::prelude::*;
use crate::text::{dec_int, dec_nat, digit_char, digit_value};

verus! {

/// Every character is an ASCII digit.
pub open spec fn all_digits(s: Seq<char>) -> bool {
    forall|i: int| 0 <= i < s.len() ==> #[trigger] digit_value(s[i]) is Some
}

/// The value of a string of digits, read in base ten.
pub open spec fn digits_value(s: Seq<char>) -> nat
    decreases s.len(),
{
    if s.len() == 0 {
        0
    } else {
        digits_value(s.drop_last()) * 10 + match digit_value(s.last()) {
            Some(d) => d,
            None => 0,
        }
    }
}

/// The value of an unsigned numeral as `str::parse` reads it: an optional
/// '+' and at least one digit, nothing else.
pub open spec fn parse_nat(s: Seq<char>) -> Option<nat> {
    let body = if s.len() > 0 && s[0] == '+' {
        s.skip(1)
    } else {
        s
    };
    if body.len() > 0 && all_digits(body) {
        Some(digits_value(body))
    } else {
        None
    }
}

/// The value of a signed numeral as `str::parse` reads it: an optional
/// sign and at least one digit.
pub open spec fn parse_signed(s: Seq<char>) -> Option<int> {
    if s.len() > 0 && s[0] == '-' {
        let body = s.skip(1);
        if body.len() > 0 && all_digits(body) {
            Some(-digits_value(body))
        } else {
            None
        }
    } else {
        match parse_nat(s) {
            Some(n) => Some(n as int),
            None => None,
        }
    }
}

/// What `str::parse::<u32>` gives, as an option.
pub open spec fn parse_u32(s: Seq<char>) -> Option<u32> {
    match parse_nat(s) {
        Some(n) => if n <= u32::MAX {
            Some(n as u32)
        } else {
            None
        },
        None => None,
    }
}

/// What `str::parse::<usize>` gives, as an option.
pub open spec fn parse_usize(s: Seq<char>) -> Option<usize> {
    match parse_nat(s) {
        Some(n) => if n <= usize::MAX {
            Some(n as usize)
        } else {
            None
        },
        None => None,
    }
}

/// What `str::parse::<i32>` gives, as an option.
pub open spec fn parse_i32(s: Seq<char>) -> Option<i32> {
    match parse_signed(s) {
        Some(n) => if i32::MIN <= n <= i32::MAX {
            Some(n as i32)
        } else {
            None
        },
        None => None,
    }
}

proof fn lemma_digits_prefix(s: Seq<char>, k: int)
    requires
        all_digits(s),
        0 <= k <= s.len(),
    ensures
        digits_value(s.take(k)) <= digits_value(s),
    decreases s.len(),
{
    if k < s.len() {
        assert(all_digits(s.drop_last()));
        assert(s.drop_last().take(k) =~= s.take(k));
        lemma_digits_prefix(s.drop_last(), k);
    } else {
        assert(s.take(k) =~= s);
    }
}

fn digit_val(c: char) -> (r: Option<u128>)
    ensures
        match digit_value(c) {
            Some(d) => r == Some(d as u128),
            None => r is None,
        },
{
    if '0' <= c && c <= '9' {
        Some((c as u32 - '0' as u32) as u128)
    } else {
        None
    }
}

/// Reads the digits `s[from..]` as a number no larger than `max`.
fn read_digits(s: &[char], from: usize, max: u128) -> (r: Option<u128>)
    requires
        from <= s@.len(),
    ensures
        match r {
            Some(n) => s@.len() > from && all_digits(s@.skip(from as int)) && n == digits_value(
                s@.skip(from as int),
            ) && n <= max,
            None => !(s@.len() > from && all_digits(s@.skip(from as int)) && digits_value(
                s@.skip(from as int),
            ) <= max),
        },
{
    let ghost body = s@.skip(from as int);
    if from >= s.len() {
        return None;
    }
    let mut acc: u128 = 0;
    let mut i: usize = from;
    while i < s.len()
        invariant
            from <= i <= s@.len(),
            body == s@.skip(from as int),
            all_digits(body.take(i - from)),
            acc as nat == digits_value(body.take(i - from)),
            acc <= max,
        decreases s@.len() - i,
    {
        let ghost k = i - from;
        assert(body.take(k + 1).drop_last() =~= body.take(k));
        assert(body[k] == s@[i as int]);
        match digit_val(s[i]) {
            Some(d) => {
                if d > max || acc > (max - d) / 10 {
                    proof {
                        assert(digits_value(body.take(k + 1)) == acc * 10 + d);
                        if d <= max {
                            assert(acc * 10 + d > max) by (nonlinear_arith)
                                requires
                                    d <= max,
                                    acc > (max - d) / 10,
                            ;
                        }
                        if all_digits(body) {
                            lemma_digits_prefix(body, k + 1);
                        }
                    }
                    return None;
                }
                assert(acc * 10 + d <= max) by (nonlinear_arith)
                    requires
                        d <= max,
                        acc <= (max - d) / 10,
                ;
                acc = acc * 10 + d;
                i = i + 1;
                assert(all_digits(body.take(i - from)));
            },
            None => {
                assert(!all_digits(body));
                return None;
            },
        }
    }
    assert(body.take(i - from) =~= body);
    Some(acc)
}

/// Reads an unsigned numeral no larger than `max`, as `str::parse` does.
pub fn parse_nat_upto(s: &[char], max: u128) -> (r: Option<u128>)
    ensures
        match parse_nat(s@) {
            Some(n) => if n <= max {
                r == Some(n as u128)
            } else {
                r is None
            },
            None => r is None,
        },
{
    if s.len() > 0 && s[0] == '+' {
        read_digits(s, 1, max)
    } else {
        let r = read_digits(s, 0, max);
        assert(s@.skip(0) =~= s@);
        r
    }
}

/// `str::parse::<u32>`, with `None` for every error.
pub fn parse_u32_chars(s: &[char]) -> (r: Option<u32>)
    ensures
        r == parse_u32(s@),
{
    match parse_nat_upto(s, 4294967295u128) {
        Some(n) => Some(n as u32),
        None => None,
    }
}

/// `str::parse::<usize>`, with `None` for every error.
pub fn parse_usize_chars(s: &[char]) -> (r: Option<usize>)
    ensures
        r == parse_usize(s@),
{
    match parse_nat_upto(s, usize::MAX as u128) {
        Some(n) => Some(n as usize),
        None => None,
    }
}

/// `str::parse::<i32>`, with `None` for every error.
pub fn parse_i32_chars(s: &[char]) -> (r: Option<i32>)
    ensures
        r == parse_i32(s@),
{
    if s.len() > 0 && s[0] == '-' {
        match read_digits(s, 1, 2147483648u128) {
            Some(n) => Some((0 - (n as i64)) as i32),
            None => None,
        }
    } else {
        match parse_nat_upto(s, 2147483647u128) {
            Some(n) => Some(n as i32),
            None => None,
        }
    }
}

proof fn lemma_digit_round_trip(d: nat)
    requires
        d < 10,
    ensures
        digit_value(digit_char(d)) == Some(d),
{
    if d == 0 {
    } else if d == 1 {
    } else if d == 2 {
    } else if d == 3 {
    } else if d == 4 {
    } else if d == 5 {
    } else if d == 6 {
    } else if d == 7 {
    } else if d == 8 {
    } else {
    }
}

proof fn lemma_dec_digits(n: nat)
    ensures
        dec_nat(n).len() > 0,
        all_digits(dec_nat(n)),
        digits_value(dec_nat(n)) == n,
        digit_value(dec_nat(n)[0]) is Some,
    decreases n,
{
    if n < 10 {
        lemma_digit_round_trip(n);
        assert(dec_nat(n).drop_last() =~= Seq::<char>::empty());
        assert(dec_nat(n).last() == digit_char(n));
        assert(digits_value(dec_nat(n)) == digits_value(Seq::<char>::empty()) * 10 + n);
    } else {
        lemma_dec_digits(n / 10);
        lemma_digit_round_trip(n % 10);
        let p = dec_nat(n / 10);
        let s = p.push(digit_char(n % 10));
        assert(s.drop_last() =~= p);
        assert forall|i: int| 0 <= i < s.len() implies #[trigger] digit_value(s[i]) is Some by {
            if i < p.len() {
                assert(s[i] == p[i]);
            }
        }
        assert(s[0] == p[0]);
        assert(s.last() == digit_char(n % 10));
        assert(digits_value(s) == digits_value(p) * 10 + n % 10);
        assert(dec_nat(n) == s);
    }
}

/// Law: reading back the decimal numeral of a number gives the number.
pub proof fn law_dec_nat_reads_back(n: nat)
    ensures
        parse_nat(dec_nat(n)) == Some(n),
{
    lemma_dec_digits(n);
}

/// Law: reading back the decimal numeral of a signed number, with its
/// minus sign, gives the number.
pub proof fn law_dec_int_reads_back(i: int)
    ensures
        parse_signed(dec_int(i)) == Some(i),
{
    if i < 0 {
        let d = dec_nat((-i) as nat);
        lemma_dec_digits((-i) as nat);
        assert((seq!['-'] + d).skip(1) =~= d);
    } else {
        lemma_dec_digits(i as nat);
    }
}

} // verus!
