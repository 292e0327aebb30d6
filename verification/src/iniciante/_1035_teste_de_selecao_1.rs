//! Selection test: four integers are accepted when they meet five conditions.
use vstd::prelude::*;
use crate::judge::{split_columns, strings_view, words_of};
use crate::numbers::{parse_i32, parse_i32_chars};
use crate::text::chars_of;

verus! {

/// Whether the values `a b c d` are accepted: `b > c`, `d > a`,
/// `c + d > a + b`, `c` and `d` not negative, and `a` even.
pub open spec fn accepted(a: int, b: int, c: int, d: int) -> bool {
    b > c && d > a && c + d > a + b && c >= 0 && d >= 0 && a % 2 == 0
}

/// The `k`-th column of the first line, read as an `i32`.
pub open spec fn column(lines: Seq<String>, k: int) -> int {
    parse_i32(words_of(lines[0]@)[k]).unwrap() as int
}

/// The input is four `i32` columns on the first line, and the sums that the
/// test computes stay within `i32`.
pub open spec fn valid_input(lines: Seq<String>) -> bool {
    &&& lines.len() >= 1
    &&& words_of(lines[0]@).len() >= 4
    &&& forall|k: int| 0 <= k < 4 ==> #[trigger] parse_i32(words_of(lines[0]@)[k]) is Some
    &&& (column(lines, 1) > column(lines, 2) && column(lines, 3) > column(lines, 0)) ==> (
    i32::MIN <= column(lines, 2) + column(lines, 3) <= i32::MAX && i32::MIN <= column(lines, 0)
        + column(lines, 1) <= i32::MAX)
}

fn read_column(cols: &Vec<String>, k: usize) -> (v: i32)
    requires
        k < cols@.len(),
        parse_i32(cols@[k as int]@) is Some,
    ensures
        v == parse_i32(cols@[k as int]@).unwrap(),
{
    let cs = chars_of(cols[k].as_str());
    match parse_i32_chars(&cs) {
        Some(v) => v,
        None => 0,
    }
}

/// Reads `a b c d` from the first line and says whether they are accepted.
pub fn run(lines: Vec<String>) -> (r: String)
    requires
        valid_input(lines@),
    ensures
        r@ == if accepted(column(lines@, 0), column(lines@, 1), column(lines@, 2), column(lines@, 3)) {
            "Valores aceitos"@
        } else {
            "Valores nao aceitos"@
        },
        r@ == "Valores aceitos"@ || r@ == "Valores nao aceitos"@,
        r@ == "Valores aceitos"@ ==> column(lines@, 0) % 2 == 0,
        r@ == "Valores aceitos"@ ==> column(lines@, 1) > column(lines@, 2),
        r@ == "Valores aceitos"@ ==> column(lines@, 3) > column(lines@, 0),
        r@ == "Valores aceitos"@ ==> column(lines@, 2) + column(lines@, 3) > column(lines@, 0)
            + column(lines@, 1),
        r@ == "Valores aceitos"@ ==> column(lines@, 2) >= 0 && column(lines@, 3) >= 0,
        column(lines@, 0) % 2 == 0 && column(lines@, 1) > column(lines@, 2) && column(lines@, 3)
            > column(lines@, 0) && column(lines@, 2) + column(lines@, 3) > column(lines@, 0)
            + column(lines@, 1) && column(lines@, 2) >= 0 && column(lines@, 3) >= 0 ==> r@
            == "Valores aceitos"@,
{
    proof {
        reveal_strlit("Valores aceitos");
        reveal_strlit("Valores nao aceitos");
    }
    let colunas = split_columns(lines[0].as_str());
    assert(strings_view(colunas@)[0] == colunas@[0]@);
    assert(strings_view(colunas@)[1] == colunas@[1]@);
    assert(strings_view(colunas@)[2] == colunas@[2]@);
    assert(strings_view(colunas@)[3] == colunas@[3]@);
    assert(parse_i32(words_of(lines@[0]@)[0]) is Some);
    assert(parse_i32(words_of(lines@[0]@)[1]) is Some);
    assert(parse_i32(words_of(lines@[0]@)[2]) is Some);
    assert(parse_i32(words_of(lines@[0]@)[3]) is Some);
    let a = read_column(&colunas, 0) as i64;
    let b = read_column(&colunas, 1) as i64;
    let c = read_column(&colunas, 2) as i64;
    let d = read_column(&colunas, 3) as i64;
    let check = b > c && d > a && c + d > a + b && c >= 0 && d >= 0 && a % 2 == 0;
    if check {
        "Valores aceitos".to_string()
    } else {
        "Valores nao aceitos".to_string()
    }
}

/// Law: an odd first value is never accepted, whatever the others are.
pub proof fn law_odd_first_rejected(a: int, b: int, c: int, d: int)
    requires
        a % 2 != 0,
    ensures
        !accepted(a, b, c, d),
{
}

/// Law: the values are accepted exactly when each condition holds on its
/// own: each condition is needed, and together they are enough.
pub proof fn law_accepted_conditions(a: int, b: int, c: int, d: int)
    ensures
        accepted(a, b, c, d) ==> b > c,
        accepted(a, b, c, d) ==> d > a,
        accepted(a, b, c, d) ==> c + d > a + b,
        accepted(a, b, c, d) ==> c >= 0 && d >= 0,
        accepted(a, b, c, d) ==> a % 2 == 0,
        b > c && d > a && c + d > a + b && c >= 0 && d >= 0 && a % 2 == 0 ==> accepted(a, b, c, d),
{
}

} // verus!
