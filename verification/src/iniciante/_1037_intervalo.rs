//! Which of the intervals [0,25], (25,50], (50,75], (75,100] holds a
//! floating-point number. The number is given exactly as the reading of the
//! input produced it, so the comparisons below are those of the number read.
use vstd::prelude::*;
use vstd::arithmetic::power2::{lemma2_to64, lemma_pow2_pos, lemma_pow2_strictly_increases, lemma_pow2_unfold, pow2};

verus! {

/// A finite binary floating-point number: `mant * 2^exp`, negative when
/// `neg` (a zero with `neg` is a negative zero).
#[derive(Debug, Clone, Copy)]
pub struct Binary {
    pub neg: bool,
    pub mant: u64,
    pub exp: i32,
}

/// A floating-point number: not a number, an infinity (negative when its
/// flag is set), or a finite number.
#[derive(Debug, Clone, Copy)]
pub enum FloatValue {
    NotANumber,
    Infinite(bool),
    Finite(Binary),
}

/// The magnitude of `b` is at most `c`.
pub open spec fn mag_le(b: Binary, c: nat) -> bool {
    if b.exp >= 0 {
        b.mant * pow2(b.exp as nat) <= c
    } else {
        b.mant <= c * pow2((-b.exp) as nat)
    }
}

/// `v <= c`, as floating-point comparison gives it (false for not a number).
pub open spec fn at_most(v: FloatValue, c: nat) -> bool {
    match v {
        FloatValue::NotANumber => false,
        FloatValue::Infinite(neg) => neg,
        FloatValue::Finite(b) => b.neg || mag_le(b, c),
    }
}

/// `v > c`, as floating-point comparison gives it (false for not a number).
pub open spec fn above(v: FloatValue, c: nat) -> bool {
    !(v is NotANumber) && !at_most(v, c)
}

/// `v >= 0`, as floating-point comparison gives it (true for both zeros).
pub open spec fn non_negative(v: FloatValue) -> bool {
    match v {
        FloatValue::NotANumber => false,
        FloatValue::Infinite(neg) => !neg,
        FloatValue::Finite(b) => !b.neg || b.mant == 0,
    }
}

/// The answer for the number `v`.
pub open spec fn interval_text(v: FloatValue) -> Seq<char> {
    if non_negative(v) && at_most(v, 25) {
        "Intervalo [0,25]"@
    } else if above(v, 25) && at_most(v, 50) {
        "Intervalo (25,50]"@
    } else if above(v, 50) && at_most(v, 75) {
        "Intervalo (50,75]"@
    } else if above(v, 75) && at_most(v, 100) {
        "Intervalo (75,100]"@
    } else {
        "Fora de intervalo"@
    }
}

fn pow2_of(n: u32) -> (r: u128)
    requires
        n <= 64,
    ensures
        r == pow2(n as nat),
{
    proof {
        lemma2_to64();
    }
    let mut r: u128 = 1;
    let mut i: u32 = 0;
    while i < n
        invariant
            i <= n <= 64,
            r == pow2(i as nat),
            pow2(64) == 0x10000000000000000nat,
        decreases n - i,
    {
        proof {
            lemma_pow2_unfold((i + 1) as nat);
            if i + 1 < 64 {
                lemma_pow2_strictly_increases((i + 1) as nat, 64);
            }
        }
        r = r * 2;
        i = i + 1;
    }
    r
}

fn mag_at_most(b: Binary, c: u64) -> (r: bool)
    requires
        c <= 100,
    ensures
        r == mag_le(b, c as nat),
{
    proof {
        lemma2_to64();
    }
    if b.mant == 0 {
        proof {
            lemma_pow2_pos(if b.exp >= 0 { b.exp as nat } else { (-b.exp) as nat });
            assert(0 * pow2(b.exp as nat) == 0);
            assert(0 <= c * pow2((-b.exp) as nat)) by (nonlinear_arith);
        }
        return true;
    }
    if b.exp >= 0 {
        if b.exp >= 7 {
            proof {
                if b.exp > 7 {
                    lemma_pow2_strictly_increases(7, b.exp as nat);
                }
                let p = pow2(b.exp as nat);
                assert(b.mant * p >= 128) by (nonlinear_arith)
                    requires
                        b.mant >= 1,
                        p >= 128,
                ;
            }
            return false;
        }
        let p = pow2_of(b.exp as u32);
        proof {
            lemma_pow2_strictly_increases(b.exp as nat, 7);
            assert(b.mant * p <= 0xffffffffffffffff * 128) by (nonlinear_arith)
                requires
                    b.mant <= 0xffffffffffffffff,
                    p <= 128,
            ;
        }
        (b.mant as u128) * p <= c as u128
    } else {
        let e: i64 = 0 - (b.exp as i64);
        if e >= 64 {
            proof {
                if e > 64 {
                    lemma_pow2_strictly_increases(64, e as nat);
                }
                let p = pow2(e as nat);
                if c > 0 {
                    assert(c * p >= p) by (nonlinear_arith)
                        requires
                            c >= 1,
                            p >= 0,
                    ;
                } else {
                    assert(c * p == 0);
                }
            }
            return c > 0;
        }
        let p = pow2_of(e as u32);
        proof {
            lemma_pow2_strictly_increases(e as nat, 64);
            assert(c * p <= 100 * 0x10000000000000000) by (nonlinear_arith)
                requires
                    c <= 100,
                    p <= 0x10000000000000000,
            ;
        }
        (b.mant as u128) <= (c as u128) * p
    }
}

fn at_most_exec(v: FloatValue, c: u64) -> (r: bool)
    requires
        c <= 100,
    ensures
        r == at_most(v, c as nat),
{
    match v {
        FloatValue::NotANumber => false,
        FloatValue::Infinite(neg) => neg,
        FloatValue::Finite(b) => b.neg || mag_at_most(b, c),
    }
}

/// Names the interval that the number `v` lies in (`interval_text`).
pub fn run(v: FloatValue) -> (r: String)
    ensures
        r@ == interval_text(v),
        v is NotANumber ==> r@ == "Fora de intervalo"@,
        v is Infinite ==> r@ == "Fora de intervalo"@,
        (v matches FloatValue::Finite(b) && b.neg && b.mant > 0) ==> r@ == "Fora de intervalo"@,
        (v matches FloatValue::Finite(b) && b.mant == 0) ==> r@ == "Intervalo [0,25]"@,
        r@ == "Intervalo [0,25]"@ ==> (v matches FloatValue::Finite(b) && (!b.neg || b.mant == 0) && (
        b.exp >= 0 ==> b.mant * pow2(b.exp as nat) <= 25) && (b.exp < 0 ==> b.mant <= 25 * pow2(
            (-b.exp) as nat,
        ))),
        r@ == "Intervalo (25,50]"@ ==> (v matches FloatValue::Finite(b) && !b.neg && (b.exp >= 0
            ==> 25 < b.mant * pow2(b.exp as nat) <= 50) && (b.exp < 0 ==> 25 * pow2((-b.exp) as nat)
            < b.mant <= 50 * pow2((-b.exp) as nat))),
        r@ == "Intervalo (50,75]"@ ==> (v matches FloatValue::Finite(b) && !b.neg && (b.exp >= 0
            ==> 50 < b.mant * pow2(b.exp as nat) <= 75) && (b.exp < 0 ==> 50 * pow2((-b.exp) as nat)
            < b.mant <= 75 * pow2((-b.exp) as nat))),
        r@ == "Intervalo (75,100]"@ ==> (v matches FloatValue::Finite(b) && !b.neg && (b.exp >= 0
            ==> 75 < b.mant * pow2(b.exp as nat) <= 100) && (b.exp < 0 ==> 75 * pow2((-b.exp) as nat)
            < b.mant <= 100 * pow2((-b.exp) as nat))),
{
    proof {
        reveal_strlit("Fora de intervalo");
        reveal_strlit("Intervalo [0,25]");
        reveal_strlit("Intervalo (25,50]");
        reveal_strlit("Intervalo (50,75]");
        reveal_strlit("Intervalo (75,100]");
        assert("Intervalo [0,25]"@[10] != "Intervalo (25,50]"@[10]);
        assert("Intervalo (25,50]"@[11] != "Intervalo (50,75]"@[11]);
        assert("Intervalo (25,50]"@[11] != "Intervalo (75,100]"@[11]);
        assert("Intervalo [0,25]"@[10] != "Intervalo (50,75]"@[10]);
        assert("Intervalo [0,25]"@[10] != "Intervalo (75,100]"@[10]);
        assert("Intervalo (50,75]"@[11] != "Intervalo (75,100]"@[11]);
        assert("Fora de intervalo"@[0] != "Intervalo [0,25]"@[0]);
        if let FloatValue::Finite(b) = v {
            if b.mant == 0 {
                assert(0 * pow2(b.exp as nat) == 0);
                assert(0 <= 25 * pow2((-b.exp) as nat)) by (nonlinear_arith);
            }
        }
    }
    let nan = match v {
        FloatValue::NotANumber => true,
        _ => false,
    };
    let non_neg = match v {
        FloatValue::NotANumber => false,
        FloatValue::Infinite(neg) => !neg,
        FloatValue::Finite(b) => !b.neg || b.mant == 0,
    };
    let le25 = at_most_exec(v, 25);
    let le50 = at_most_exec(v, 50);
    let le75 = at_most_exec(v, 75);
    let le100 = at_most_exec(v, 100);
    let text = if non_neg && le25 {
        "Intervalo [0,25]"
    } else if !nan && !le25 && le50 {
        "Intervalo (25,50]"
    } else if !nan && !le50 && le75 {
        "Intervalo (50,75]"
    } else if !nan && !le75 && le100 {
        "Intervalo (75,100]"
    } else {
        "Fora de intervalo"
    };
    text.to_string()
}

/// Law: a negative number other than zero lies in no interval.
pub proof fn law_negative_outside(b: Binary)
    requires
        b.neg,
        b.mant > 0,
    ensures
        interval_text(FloatValue::Finite(b)) == "Fora de intervalo"@,
{
}

/// Law: zero, of either sign, lies in the first interval.
pub proof fn law_zero_first(b: Binary)
    requires
        b.mant == 0,
    ensures
        interval_text(FloatValue::Finite(b)) == "Intervalo [0,25]"@,
{
}

/// Law: what is not a finite number lies in no interval.
pub proof fn law_not_finite_outside(neg: bool)
    ensures
        interval_text(FloatValue::NotANumber) == "Fora de intervalo"@,
        interval_text(FloatValue::Infinite(neg)) == "Fora de intervalo"@,
{
}

/// Law: a positive number lies in the interval its magnitude falls in.
pub proof fn law_positive_intervals(b: Binary)
    requires
        !b.neg,
        b.mant > 0,
        b.exp >= 0,
    ensures
        b.mant * pow2(b.exp as nat) <= 25 ==> interval_text(FloatValue::Finite(b)) == "Intervalo [0,25]"@,
        25 < b.mant * pow2(b.exp as nat) <= 50 ==> interval_text(FloatValue::Finite(b))
            == "Intervalo (25,50]"@,
        50 < b.mant * pow2(b.exp as nat) <= 75 ==> interval_text(FloatValue::Finite(b))
            == "Intervalo (50,75]"@,
        75 < b.mant * pow2(b.exp as nat) <= 100 ==> interval_text(FloatValue::Finite(b))
            == "Intervalo (75,100]"@,
        100 < b.mant * pow2(b.exp as nat) ==> interval_text(FloatValue::Finite(b)) == "Fora de intervalo"@,
{
}

} // verus!
