use mybash::cmp::CompareExprErr;
use mybash::executor::{ExeError, Executor};
use mybash::lang_parser::LangParser;
use mybash::variables::VarValue;

fn run(script: &str, args: Vec<String>, env: Vec<(String, String)>) -> (Vec<String>, bool) {
    let parsed = script.parse::<LangParser>().unwrap();
    let mut exe = Executor::new(&parsed.experssions, args, env);
    let ok = exe.execute().is_ok();
    (exe.output().clone(), ok)
}

#[test]
fn eval_var_expansion_with_curly_braces_syntax() {
    let expr = "name: str=Jone\necho \"Hello, ${name}\"";
    let parse_result = expr.parse::<LangParser>().unwrap();
    let exe = Executor::new(&parse_result.experssions, vec![], vec![]);

    let value = exe.eval_var_expansion("Hello, ${name}");

    assert_eq!(value, VarValue::Str("Hello, Jone".into()));
}

#[test]
fn eval_var_expansion_without_curly_braces() {
    let expr = "name: str=Jone\necho \"Hello, $name\"";
    let parse_result = expr.parse::<LangParser>().unwrap();
    let exe = Executor::new(&parse_result.experssions, vec![], vec![]);

    let value = exe.eval_var_expansion("Hello, $name");

    assert_eq!(value, VarValue::Str("Hello, Jone".into()));
}

#[test]
fn declared_text_expands_to_itself() {
    for (line, name, v) in [
        ("name : str = 'v'", "name", "v"),
        ("greeting : str = 'Hello, World'", "greeting", "Hello, World"),
        ("x : str = ''", "x", ""),
        ("k : str = 'a:b = c'", "k", "a:b = c"),
    ] {
        let parsed = line.parse::<LangParser>().unwrap();
        let exe = Executor::new(&parsed.experssions, vec![], vec![]);
        assert_eq!(exe.eval_var_expansion(name), VarValue::Str(v.into()));
    }
}

#[test]
fn echo_of_integer_variable() {
    let (out, ok) = run("age: int = 30\necho age", vec![], vec![]);
    assert!(ok);
    assert_eq!(out, vec!["30".to_string()]);
}

#[test]
fn if_else_runs_the_else_branch() {
    let script = "age: int = 30\nif age > 40\ndo echo 'I am old'\nelse\ndo echo 'I am still young'\nendif";
    let (out, ok) = run(script, vec![], vec![]);
    assert!(ok);
    assert_eq!(out, vec!["I am still young".to_string()]);
}

#[test]
fn echo_interpolates_braced_reference() {
    let (out, ok) = run("name: str = 'Jone'\necho \"Hello, ${name}\"", vec![], vec![]);
    assert!(ok);
    assert_eq!(out, vec!["Hello, Jone".to_string()]);
}

#[test]
fn if_without_else_and_false_condition_prints_nothing() {
    let (out, ok) = run("a: int = 1\nif a == 2\ndo echo yes\nendif\necho done", vec![], vec![]);
    assert!(ok);
    assert_eq!(out, vec!["done".to_string()]);
}

#[test]
fn branch_declaration_binds_when_it_runs() {
    let script = "a: int = 1\nif a == 1\ndo b: str = 'from $a'\nendif\necho $b";
    let (out, ok) = run(script, vec![], vec![]);
    assert!(ok);
    assert_eq!(out, vec!["from 1".to_string()]);
}

#[test]
fn later_declaration_overwrites() {
    let (out, _) = run("a: str = x\necho $a\na: str = y\necho $a", vec![], vec![]);
    assert_eq!(out, vec!["x".to_string(), "y".to_string()]);
}

#[test]
fn boolean_conditions() {
    let script = "flag: bool = true\nif flag == true\ndo echo on\nelse\ndo echo off\nendif";
    let (out, ok) = run(script, vec![], vec![]);
    assert!(ok);
    assert_eq!(out, vec!["on".to_string()]);
}

#[test]
fn ordering_text_fails_and_stops_the_run() {
    let script = "echo before\nname: str = bob\nif name > 3\ndo echo x\nendif\necho after";
    let parsed = script.parse::<LangParser>().unwrap();
    let mut exe = Executor::new(&parsed.experssions, vec![], vec![]);
    let err = exe.execute().unwrap_err();
    match err {
        ExeError::CompareExprErr(e) => assert_eq!(
            e,
            CompareExprErr::InvalidComparson("`bob` is not a valid left hand side".to_string())
        ),
    }
    assert_eq!(exe.output(), &vec!["before".to_string()]);
}

#[test]
fn positional_and_environment_references() {
    let args = vec!["mybash".to_string(), "script.mb".to_string(), "first".to_string()];
    let env = vec![("HOME".to_string(), "/home/jone".to_string())];
    let (out, ok) = run(
        "echo $1\necho ${HOME}\necho [${UNSET}]\necho $0\necho $7",
        args,
        env,
    );
    assert!(ok);
    assert_eq!(
        out,
        vec![
            "first".to_string(),
            "/home/jone".to_string(),
            "[]".to_string(),
            "script.mb".to_string(),
            "".to_string()
        ]
    );
}

#[test]
fn operands_resolve_arguments() {
    let args = vec!["mybash".to_string(), "s.mb".to_string(), "yes".to_string()];
    let (out, ok) = run("if $1 == yes\ndo echo agreed\nendif", args, vec![]);
    assert!(ok);
    assert_eq!(out, vec!["agreed".to_string()]);
}
