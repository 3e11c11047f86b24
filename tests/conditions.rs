use mybash::cmp::{CompareExpr, CompareExprErr, Operator};
use mybash::conditions::{Condition, ConditionErr};
use mybash::echo::Echo;
use mybash::lang_parser::{Expression, ParseErr};
use mybash::variables::{VarErr, VarValue, Variable};

#[test]
fn parse_if_statments_only() {
    // The condition of a block is a comparison: a bare word is rejected.
    let expr = "if condition\ndo echo 'Hello, World'\nendif";
    assert_eq!(
        expr.parse::<Condition>().err().unwrap(),
        ConditionErr::CompareExprErr(CompareExprErr::InvalidComparson("condition".to_string()))
    );

    let expr = "if condition == 1\ndo echo 'Hello, World'\nendif";
    let Condition {
        condition,
        if_expr,
        else_expr,
    } = expr.parse::<Condition>().unwrap();

    assert_eq!(condition.left, "condition".to_string());
    assert_eq!(if_expr, Expression::Echo(Echo("Hello, World".to_string())));
    assert!(else_expr.is_none());
}

#[test]
fn parse_if_else_statments() {
    // Type names are lower-case keywords: `String` is no type.
    let expr = "if some_condition\ndo name: String = 'Hello, World'\nelse\ndo echo 'Hello, World'\nendif";
    assert_eq!(
        expr.parse::<Condition>().err().unwrap(),
        ConditionErr::ParseErr(ParseErr::VarErr(VarErr::InvalidDataType("String".to_string())))
    );

    let expr = "if some_condition != 0\ndo name: string = 'Hello, World'\nelse\ndo echo 'Hello, World'\nendif";
    let Condition {
        condition,
        if_expr,
        else_expr,
    } = expr.parse::<Condition>().unwrap();

    assert_eq!(condition.left, "some_condition".to_string());
    assert_eq!(
        if_expr,
        Expression::Var(Variable::new("name", VarValue::Str("Hello, World".into())))
    );
    assert_eq!(
        else_expr,
        Some(Expression::Echo(Echo("Hello, World".into())))
    );
}

#[test]
fn parse_if_statments_with_invalid_expr() {
    let expr = "if condition\ndo echo'Hello, World'\nendif";
    let res = expr.parse::<Condition>();
    assert!(res.is_err());
    assert_eq!(
        res.err().unwrap(),
        ConditionErr::ParseErr(ParseErr::InvalidExperssion(
            "echo'Hello, World'".to_string()
        ))
    )
}

#[test]
fn parse_if_statments_with_line_and_idx() {
    let lines = vec!["if condtion", "do echo 'hello, world'", "endif"];
    let (expr, idx) = Condition::from_lines(&lines, 0).unwrap();

    assert_eq!(expr, lines.join("\n"));
    assert_eq!(idx, 2)
}

#[test]
fn multi_line_parsing_with_if_and_else_expr() {
    let lines = vec![
        "if condtion",
        "do echo 'hello, world'",
        "else",
        "do num: Int = 32",
        "endif",
    ];
    let (expr, idx) = Condition::from_lines(&lines, 0).unwrap();

    assert_eq!(expr, lines.join("\n"));
    assert_eq!(idx, 4)
}

#[test]
fn multi_line_parsing_as_part_of_other_expr() {
    let lines = vec![
        "name: Str: Jone",
        "if condtion",
        "do echo 'hello, world'",
        "else",
        "do num: Int = 32",
        "endif",
        "echo name",
    ];
    let (expr, idx) = Condition::from_lines(&lines, 1).unwrap();

    assert_eq!(expr, lines[1..6].join("\n").to_string());
    assert_eq!(idx, 5)
}

#[test]
fn parse_if_without_endif() {
    let lines = vec![
        "name: Str: Jone",
        "if condtion",
        "do echo 'hello, world'",
        "else",
        "do num: Int = 32",
    ];

    let res = Condition::from_lines(&lines, 1).err().unwrap();

    assert_eq!(
        res,
        ConditionErr::InvalidExperssion(format!("Expected `endif` but found {}", lines[4]))
    );
}

#[test]
fn scanner_rejects_index_out_of_range() {
    let lines = vec!["if a == b", "do echo x", "endif"];
    assert_eq!(
        Condition::from_lines(&lines, 3).err().unwrap(),
        ConditionErr::InvalidIdx("Index out of range. idx = 3. 0 <= idx < 3".to_string())
    );
}

#[test]
fn scanner_rejects_start_that_is_no_if_line() {
    let lines = vec!["echo x", "endif"];
    assert_eq!(
        Condition::from_lines(&lines, 0).err().unwrap(),
        ConditionErr::InvalidExperssion("Expr: echo x is not a valid if statment".to_string())
    );
}

#[test]
fn scanner_rejects_nested_if() {
    let lines = vec!["if a == b", "if c == d", "do echo x", "endif"];
    assert_eq!(
        Condition::from_lines(&lines, 0).err().unwrap(),
        ConditionErr::InvalidExperssion(
            "Found another if statment before ending the first one: if c == d".to_string()
        )
    );
}

#[test]
fn scanner_on_last_line_names_it() {
    let lines = vec!["echo a", "if a == b"];
    assert_eq!(
        Condition::from_lines(&lines, 1).err().unwrap(),
        ConditionErr::InvalidExperssion("Expected `endif` but found if a == b".to_string())
    );
}

#[test]
fn block_of_wrong_shape_is_rejected() {
    let text = "if a == b\ndo echo x\ndo echo y\nendif";
    assert_eq!(
        text.parse::<Condition>().err().unwrap(),
        ConditionErr::InvalidIfElse(text.to_string())
    );
}

#[test]
fn block_branch_may_not_be_a_block() {
    let text = "if a == b\ndo if c == d\nendif";
    assert_eq!(
        text.parse::<Condition>().err().unwrap(),
        ConditionErr::ParseErr(ParseErr::CondtionErr(Box::new(
            ConditionErr::InvalidExperssion("Expected `endif` but found if c == d".to_string())
        )))
    );
}

#[test]
fn block_condition_is_a_comparison() {
    let c = "if x <= 3\ndo echo small\nendif".parse::<Condition>().unwrap();
    assert_eq!(
        c.condition,
        CompareExpr {
            left: "x".into(),
            right: "3".into(),
            operator: Operator::LtEq
        }
    );
    assert!(Condition::is_if_statment("  if x"));
    assert!(!Condition::is_if_statment("iffy"));
    assert!(Condition::is_endif(" endif "));
    assert!(!Condition::is_endif("endif x"));
}
