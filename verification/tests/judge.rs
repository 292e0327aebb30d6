use vai::iniciante::_1020_idade_em_dias;
use vai::iniciante::_1035_teste_de_selecao_1;
use vai::iniciante::_1037_intervalo::{self, Binary, FloatValue};
use vai::judge::{split_columns, split_lines};

fn assert_run(afn: impl Fn(Vec<String>) -> String, s: &str, expected: &str) {
    assert_eq!(&afn(split_lines(&s)), expected);
}

#[test]
fn _1020_idade_em_dias_test_run() {
    assert_run(_1020_idade_em_dias::run, &"400", "1 ano(s)\n1 mes(es)\n5 dia(s)");
    assert_run(_1020_idade_em_dias::run, &"800", "2 ano(s)\n2 mes(es)\n10 dia(s)");
    assert_run(_1020_idade_em_dias::run, &"30", "0 ano(s)\n1 mes(es)\n0 dia(s)");
}

#[test]
fn _1035_teste_de_selecao_1_test_run() {
    assert_run(_1035_teste_de_selecao_1::run, &"5 6 7 8", "Valores nao aceitos");
    assert_run(_1035_teste_de_selecao_1::run, &"2 3 2 6", "Valores aceitos");
}

#[test]
fn split_lines_follows_str_lines() {
    for s in ["", "a", "a\n", "a\r\nb", "a\n\nb\n", "\n", "x\r", "a\rb\r\n"] {
        let expected: Vec<String> = s.lines().map(|l| l.to_string()).collect();
        assert_eq!(split_lines(s), expected, "input {:?}", s);
    }
}

#[test]
fn split_columns_follows_split_whitespace() {
    for s in ["", "  ", "a b", " a\tb \n c ", "x\u{3000}y\u{a0}z", "1  2   3"] {
        let expected: Vec<String> = s.split_whitespace().map(|l| l.to_string()).collect();
        assert_eq!(split_columns(s), expected, "input {:?}", s);
    }
}

#[test]
fn age_in_days_edges() {
    assert_run(_1020_idade_em_dias::run, &"0", "0 ano(s)\n0 mes(es)\n0 dia(s)");
    assert_run(_1020_idade_em_dias::run, &"+365", "1 ano(s)\n0 mes(es)\n0 dia(s)");
    assert_run(_1020_idade_em_dias::run, &"4294967295", "11767033 ano(s)\n8 mes(es)\n10 dia(s)");
}


/// The exact value of a floating-point number, as the tool reads it.
fn float_value(x: f64) -> FloatValue {
    let bits = x.to_bits();
    let neg = bits >> 63 == 1;
    let exp_bits = ((bits >> 52) & 0x7ff) as i32;
    let frac = bits & ((1u64 << 52) - 1);
    if exp_bits == 0x7ff {
        if frac != 0 {
            FloatValue::NotANumber
        } else {
            FloatValue::Infinite(neg)
        }
    } else if exp_bits == 0 {
        FloatValue::Finite(Binary { neg, mant: frac, exp: -1074 })
    } else {
        FloatValue::Finite(Binary { neg, mant: frac | (1u64 << 52), exp: exp_bits - 1075 })
    }
}

fn run_1037(lines: Vec<String>) -> String {
    let n: f64 = lines[0].parse().unwrap();
    _1037_intervalo::run(float_value(n))
}

#[test]
fn _1037_intervalo_test_run() {
    assert_run(run_1037, &"25.01", "Intervalo (25,50]");
    assert_run(run_1037, &"25.00", "Intervalo [0,25]");
    assert_run(run_1037, &"100.00", "Intervalo (75,100]");
    assert_run(run_1037, &"-25.02", "Fora de intervalo");
}

#[test]
fn interval_edges() {
    assert_run(run_1037, &"-0.0", "Intervalo [0,25]");
    assert_run(run_1037, &"0", "Intervalo [0,25]");
    assert_run(run_1037, &"50", "Intervalo (25,50]");
    assert_run(run_1037, &"50.000001", "Intervalo (50,75]");
    assert_run(run_1037, &"75.", "Intervalo (50,75]");
    assert_run(run_1037, &"+100.01", "Fora de intervalo");
    assert_run(run_1037, &"25.0000000000000001", "Intervalo [0,25]");
    assert_run(run_1037, &"5e-324", "Intervalo [0,25]");
    assert_run(run_1037, &"1e300", "Fora de intervalo");
    assert_run(run_1037, &"NaN", "Fora de intervalo");
    assert_run(run_1037, &"inf", "Fora de intervalo");
    assert_run(run_1037, &"-inf", "Fora de intervalo");
}
