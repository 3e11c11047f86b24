use mybash::cmp::{CompareExpr, Operator};
use mybash::conditions::{Condition, ConditionErr};
use mybash::echo::Echo;
use mybash::lang_parser::{Expression, LangParser, ParseErr};
use mybash::variables::{VarErr, VarValue, Variable};

const SCRIPT: &str = "age: int = 30\necho age\nif age > 40\ndo echo 'I am old'\nelse\ndo echo 'I am still young'\nendif\n";

#[test]
fn declare_var_and_echo_it() {
    let expr = "name: string = 'Jone'\necho name";
    let result = expr.parse::<LangParser>().unwrap();
    let LangParser { experssions } = result;

    assert_eq!(experssions.len(), 2);
    assert_eq!(
        experssions[0],
        Expression::Var(Variable::new("name", VarValue::Str("Jone".into())))
    );
    assert_eq!(experssions[1], Expression::Echo(Echo("name".into())));
}

#[test]
fn parse_if_statment() {
    let expr = SCRIPT;
    let result = expr.parse::<LangParser>().unwrap();
    let LangParser { experssions } = result;

    assert_eq!(experssions.len(), 3);
    assert_eq!(
        experssions[0],
        Expression::Var(Variable::new("age", VarValue::Int(30)))
    );
    assert_eq!(experssions[1], Expression::Echo(Echo("age".into())));
    assert_eq!(
        experssions[2],
        Expression::Condition(Box::new(Condition {
            condition: CompareExpr {
                left: "age".into(),
                right: "40".into(),
                operator: Operator::Gt
            },
            if_expr: Expression::Echo(Echo("I am old".into())),
            else_expr: Some(Expression::Echo(Echo("I am still young".into())))
        }))
    );
}

#[test]
fn blank_lines_are_skipped() {
    let p = "\n\n  echo a  \n   \n\techo b\n".parse::<LangParser>().unwrap();
    assert_eq!(
        p.experssions,
        vec![
            Expression::Echo(Echo("a".into())),
            Expression::Echo(Echo("b".into()))
        ]
    );
    assert!("".parse::<LangParser>().unwrap().experssions.is_empty());
}

#[test]
fn unrecognised_line_aborts_the_parse() {
    assert_eq!(
        "echo a\nprint b\necho c".parse::<LangParser>().unwrap_err(),
        ParseErr::InvalidExperssion("print b".to_string())
    );
}

#[test]
fn bad_declaration_aborts_the_parse() {
    assert_eq!(
        "x: float = 1".parse::<LangParser>().unwrap_err(),
        ParseErr::VarErr(VarErr::InvalidDataType("float".to_string()))
    );
}

#[test]
fn block_without_endif_aborts_the_parse() {
    assert_eq!(
        "if a == b\ndo echo x".parse::<LangParser>().unwrap_err(),
        ParseErr::CondtionErr(Box::new(ConditionErr::InvalidExperssion(
            "Expected `endif` but found do echo x".to_string()
        )))
    );
}

#[test]
fn statements_after_a_block_are_parsed() {
    let p = "if a == b\ndo echo x\nendif\necho after".parse::<LangParser>().unwrap();
    assert_eq!(p.experssions.len(), 2);
    assert_eq!(p.experssions[1], Expression::Echo(Echo("after".into())));
}
