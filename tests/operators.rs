use mybash::cmp::{CompareExpr, CompareExprErr, Operator, OperatorErr};
use mybash::variables::VarValue;

#[test]
fn new_operator() {
    assert_eq!("==".parse::<Operator>().unwrap(), Operator::Eq);
    assert_eq!("!=".parse::<Operator>().unwrap(), Operator::NotEq);
    assert_eq!(">".parse::<Operator>().unwrap(), Operator::Gt);
    assert_eq!(">=".parse::<Operator>().unwrap(), Operator::GtEq);
    assert_eq!("<".parse::<Operator>().unwrap(), Operator::Lt);
    assert_eq!("<=".parse::<Operator>().unwrap(), Operator::LtEq);
    assert!("..".parse::<Operator>().is_err());
}

#[test]
fn parse_equality_expr() {
    let expr = "age > 20";
    let cmp = expr.parse::<CompareExpr>().unwrap();

    assert_eq!(
        cmp,
        CompareExpr {
            left: "age".into(),
            right: "20".into(),
            operator: Operator::Gt
        }
    )
}

#[test]
fn parse_invalid_expr() {
    let expr = "age !! 20";
    let cmp = expr.parse::<CompareExpr>();

    assert_eq!(
        cmp.err().unwrap(),
        CompareExprErr::OperatorErr(OperatorErr::InvalidOperator("!!".into()))
    )
}

#[test]
fn operator_tokens_ignore_surrounding_whitespace() {
    assert_eq!(Operator::parse("  >=\t").unwrap(), Operator::GtEq);
    assert_eq!(Operator::parse(" != ").unwrap(), Operator::NotEq);
}

#[test]
fn operator_rejects_other_tokens_with_text_as_given() {
    for bad in ["=", "=>", "<>", "===", "", " ! ", "> ="] {
        assert_eq!(
            Operator::parse(bad),
            Err(OperatorErr::InvalidOperator(bad.to_string()))
        );
    }
}

#[test]
fn compare_integers_with_orderings() {
    let five = VarValue::Int(5);
    let three = VarValue::Int(3);
    assert_eq!(CompareExpr::cmp(&five, &three, &Operator::Gt), Ok(true));
    assert_eq!(CompareExpr::cmp(&five, &three, &Operator::GtEq), Ok(true));
    assert_eq!(CompareExpr::cmp(&five, &three, &Operator::Lt), Ok(false));
    assert_eq!(CompareExpr::cmp(&three, &three, &Operator::LtEq), Ok(true));
    assert_eq!(CompareExpr::cmp(&three, &three, &Operator::Eq), Ok(true));
}

#[test]
fn compare_text_with_integer_order_fails() {
    let a = VarValue::Str("a".to_string());
    let one = VarValue::Int(1);
    assert_eq!(
        CompareExpr::cmp(&a, &one, &Operator::Gt),
        Err(CompareExprErr::InvalidComparson(
            "`a` is not a valid left hand side".to_string()
        ))
    );
    assert_eq!(
        CompareExpr::cmp(&one, &a, &Operator::Lt),
        Err(CompareExprErr::InvalidComparson(
            "`a` is not a valid right hand side".to_string()
        ))
    );
    assert_eq!(
        CompareExpr::cmp(&VarValue::Bool(true), &one, &Operator::LtEq),
        Err(CompareExprErr::InvalidComparson(
            "`true` & `1` Invalid right and left hand side".to_string()
        ))
    );
}

#[test]
fn compare_text_for_inequality() {
    let a = VarValue::Str("a".to_string());
    let b = VarValue::Str("b".to_string());
    assert_eq!(CompareExpr::cmp(&a, &b, &Operator::NotEq), Ok(true));
    assert_eq!(CompareExpr::cmp(&a, &a.clone(), &Operator::Eq), Ok(true));
}

#[test]
fn compare_values_of_different_kinds_are_unequal() {
    let t = VarValue::Str("1".to_string());
    let one = VarValue::Int(1);
    assert_eq!(CompareExpr::cmp(&t, &one, &Operator::Eq), Ok(false));
    assert_eq!(CompareExpr::cmp(&t, &one, &Operator::NotEq), Ok(true));
    assert_eq!(
        CompareExpr::cmp(&VarValue::Bool(true), &VarValue::Bool(true), &Operator::Eq),
        Ok(true)
    );
}

#[test]
fn parse_comparison_with_quoted_operands() {
    let cmp = "name == 'Jone Doe'".parse::<CompareExpr>().unwrap();
    assert_eq!(cmp.left, "name");
    assert_eq!(cmp.right, "Jone Doe");
    assert_eq!(cmp.operator, Operator::Eq);
}

#[test]
fn parse_comparison_without_operator_fails() {
    assert_eq!(
        "condition".parse::<CompareExpr>(),
        Err(CompareExprErr::InvalidComparson("condition".to_string()))
    );
}
