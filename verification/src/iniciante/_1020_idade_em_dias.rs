//! Age in days, written as years, months and days (a year of 365 days and a
//! month of 30).
use vstd::prelude::*;
use crate::numbers::{parse_u32, parse_u32_chars};
use crate::text::{chars_of, dec_nat, push_dec, push_str};

verus! {

/// The output for an age of `n` days.
pub open spec fn age_text(n: nat) -> Seq<char> {
    dec_nat(n / 365) + " ano(s)\n"@ + dec_nat((n % 365) / 30) + " mes(es)\n"@ + dec_nat(
        (n % 365) % 30,
    ) + " dia(s)"@
}

/// Reads the age in days from the first line and writes it as years,
/// months and days.
pub fn run(lines: Vec<String>) -> (r: String)
    requires
        lines@.len() >= 1,
        parse_u32(lines@[0]@) is Some,
    ensures
        r@ == age_text(parse_u32(lines@[0]@).unwrap() as nat),
{
    let cs = chars_of(lines[0].as_str());
    let mut n: u32 = match parse_u32_chars(&cs) {
        Some(v) => v,
        None => 0,
    };
    let ghost total = n as nat;
    let ano = n / 365;
    n = n - ano * 365;
    let mes = n / 30;
    n = n - mes * 30;
    let mut r = String::new();
    push_dec(&mut r, ano as u128);
    push_str(&mut r, " ano(s)\n");
    push_dec(&mut r, mes as u128);
    push_str(&mut r, " mes(es)\n");
    push_dec(&mut r, n as u128);
    push_str(&mut r, " dia(s)");
    proof {
        assert(total % 365 == total - ano * 365);
        assert(n == (total % 365) % 30);
    }
    r
}

/// Law: the years, months and days written add up to the age, with fewer
/// than 30 days and fewer than 365 days in the months and days together.
pub proof fn law_age_adds_up(n: nat)
    ensures
        exists|y: nat, m: nat, d: nat|
            #![trigger dec_nat(y), dec_nat(m), dec_nat(d)]
            y * 365 + m * 30 + d == n && d < 30 && m * 30 + d < 365 && age_text(n) == dec_nat(y)
                + " ano(s)\n"@ + dec_nat(m) + " mes(es)\n"@ + dec_nat(d) + " dia(s)"@,
{
    let y = n / 365;
    let m = (n % 365) / 30;
    let d = (n % 365) % 30;
    assert(y * 365 + m * 30 + d == n);
    assert(age_text(n) == dec_nat(y) + " ano(s)\n"@ + dec_nat(m) + " mes(es)\n"@ + dec_nat(d) + " dia(s)"@);
}

} // verus!
