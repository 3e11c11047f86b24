use mybash::eval::{eval, Number};

fn value(n: Number) -> f64 {
    n.num as f64 / n.den as f64
}

#[test]
fn eval_simple_math_expr() {
    let res = eval("12 + 8 / 4 - 3").unwrap();
    assert_eq!(value(res), 12.0 + 8.0 / 4.0 - 3.0);
}

#[test]
fn eval_nested_math_expr() {
    let res = eval("(12 / 2) * [30 * 3]").unwrap();
    assert_eq!(value(res), (12.0 / 2.0 * (30.0 * 3.0)))
}

#[test]
fn eval_invalid_math_expr() {
    let res = eval("expr");
    assert!(res.is_err())
}

#[test]
fn eval_folds_by_first_operator_exactly() {
    // `+` splits first: 12 + (8 / 4 - 3); `8 / 4 - 3` splits on `-`.
    assert_eq!(eval("12 + 8 / 4 - 3").unwrap(), Number { num: 44, den: 4 });
    // Groups become values first: 12/2 and 90/1, then `*`.
    assert_eq!(eval("(12 / 2) * [30 * 3]").unwrap(), Number { num: 1080, den: 2 });
}

#[test]
fn eval_fractions_stay_exact() {
    assert_eq!(value(eval("7 / 2").unwrap()), 3.5);
    assert_eq!(value(eval("1 / 3 * 3").unwrap()), 1.0);
    assert_eq!(value(eval("1.5 + .5").unwrap()), 2.0);
    assert_eq!(value(eval("-2 + 5").unwrap()), 3.0);
}

#[test]
fn eval_error_messages() {
    assert_eq!(
        eval("a + 1"),
        Err("`a + 1` is not a valid math expression".to_string())
    );
    assert_eq!(eval("x = 1").unwrap_err(), "`x = 1` is not a valid math expression");
    assert_eq!(eval("1 / 0"), Err("`1 / 0` divides by zero".to_string()));
    assert_eq!(
        eval("99999999999999999999999999999999999999999"),
        Err("`99999999999999999999999999999999999999999` leaves the range of numbers".to_string())
    );
    assert!(eval("").is_err());
    assert!(eval("1 +").is_err());
    assert!(eval("1.2.3").is_err());
}

#[test]
fn eval_group_of_a_group() {
    assert_eq!(value(eval("((1 + 2))").unwrap()), 3.0);
    assert_eq!(value(eval("[2] * (3)").unwrap()), 6.0);
    assert!(eval("((1 + 2) * 3)").is_err());
    assert!(eval("2 x 3").is_err());
}
