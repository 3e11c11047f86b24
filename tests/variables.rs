use mybash::variables::{VarErr, VarValue, Variable};

#[test]
fn create_new_str_var() {
    let var_name = "name".to_string();
    let var_value = "Jone".to_string();
    let var = Variable::new(&var_name, VarValue::Str(var_value.clone()));

    assert_eq!(var.name, var_name);
    assert_eq!(var.value, VarValue::Str(var_value));
}

#[test]
fn create_new_int_var() {
    let var_name = "age".to_string();
    let var_value = 30;
    let var = Variable::new(&var_name, VarValue::Int(var_value));

    assert_eq!(var.name, var_name);
    assert_eq!(var.value, VarValue::Int(var_value));
}

#[test]
fn new_str_var_with_double_quotes() {
    let expr = "name: str = \"Jone\"";
    let var = expr.parse::<Variable>().unwrap();

    assert_eq!(
        var,
        Variable {
            name: "name".into(),
            value: VarValue::Str("Jone".into())
        }
    )
}

#[test]
fn new_str_var_with_single_quotes() {
    let expr = "email: str = 'something@whatmatter.com'";
    let var = expr.parse::<Variable>().unwrap();

    assert_eq!(
        var,
        Variable {
            name: "email".into(),
            value: VarValue::Str("something@whatmatter.com".into())
        }
    )
}

#[test]
fn new_int_var() {
    let expr = "age: int = 31";
    let var = expr.parse::<Variable>().unwrap();

    assert_eq!(
        var,
        Variable {
            name: "age".into(),
            value: VarValue::Int(31)
        }
    )
}

#[test]
fn new_bool_var() {
    let expr = "is_married: bool = false";
    let var = expr.parse::<Variable>().unwrap();

    assert_eq!(
        var,
        Variable {
            name: "is_married".into(),
            value: VarValue::Bool(false)
        }
    )
}

#[test]
fn int_declarations_are_evaluated_and_truncated() {
    assert_eq!(Variable::parse("a: int = 7 / 2").unwrap().value, VarValue::Int(3));
    assert_eq!(Variable::parse("a: int = 0 - 7 / 2").unwrap().value, VarValue::Int(-3));
    assert_eq!(Variable::parse("a: int = (2 + 3) * 4").unwrap().value, VarValue::Int(20));
    assert_eq!(
        Variable::parse("a: int = 99999999999").unwrap().value,
        VarValue::Int(i32::MAX)
    );
    assert_eq!(
        Variable::parse("a: int = 0 - 99999999999").unwrap().value,
        VarValue::Int(i32::MIN)
    );
}

#[test]
fn declaration_errors() {
    assert_eq!(
        Variable::parse("a: int = abc"),
        Err(VarErr::InvalidInt("`abc` is not a valid int expression".to_string()))
    );
    assert_eq!(
        Variable::parse("b: bool = yes"),
        Err(VarErr::InvalidBool("`yes` is not a valid boolean".to_string()))
    );
    assert_eq!(
        Variable::parse("c: Int = 3"),
        Err(VarErr::InvalidDataType("Int".to_string()))
    );
    assert_eq!(
        Variable::parse("just text"),
        Err(VarErr::InvlaidVarDeclaration("just text".to_string()))
    );
    assert_eq!(
        Variable::parse("d: str ="),
        Err(VarErr::InvlaidVarDeclaration("d: str =".to_string()))
    );
}

#[test]
fn declaration_shapes() {
    assert!(Variable::is_var("x:str=1"));
    assert!(Variable::is_var("  x : weird = 1  "));
    assert!(!Variable::is_var("echo x"));
    assert!(!Variable::is_var(": str = 1"));
    let v = Variable::parse("flag: bool = 'true'").unwrap();
    assert_eq!(v.value, VarValue::Bool(true));
    assert!(!v.is_int());
    assert!(Variable::parse("n: int = 1").unwrap().is_int());
    let s = Variable::parse("s: string = it's").unwrap();
    assert_eq!(s.value, VarValue::Str("it's".into()));
}

#[test]
fn value_text() {
    assert_eq!(VarValue::Int(-42).to_text(), "-42");
    assert_eq!(VarValue::Int(0).to_text(), "0");
    assert_eq!(VarValue::Int(i32::MIN).to_text(), "-2147483648");
    assert_eq!(VarValue::Bool(false).to_text(), "false");
    assert_eq!(VarValue::Str("abc".into()).to_text(), "abc");
}
