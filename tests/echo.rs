use mybash::echo::{Echo, EchoErr};

#[test]
fn should_create_echo() {
    let expr = "echo 'with single quotes'";
    assert_eq!(
        expr.parse::<Echo>().unwrap(),
        Echo("with single quotes".into())
    );
    let expr = "echo \"with double quotes\"";
    assert_eq!(
        expr.parse::<Echo>().unwrap(),
        Echo("with double quotes".into())
    );
    let expr = "echo     $1";
    assert_eq!(expr.parse::<Echo>().unwrap(), Echo("$1".into()));
    let expr = "echo               some_var";
    assert_eq!(expr.parse::<Echo>().unwrap(), Echo("some_var".into()));
}

#[test]
fn should_get_invalid_echo_expr() {
    let expr = "invalid echo";
    assert_eq!(
        expr.parse::<Echo>().err().unwrap(),
        EchoErr::NoMatch(expr.into())
    );
}

#[test]
fn echo_needs_whitespace_and_text() {
    assert_eq!(Echo::parse("echo"), Err(EchoErr::NoMatch("echo".into())));
    assert_eq!(Echo::parse("echo''"), Err(EchoErr::NoMatch("echo''".into())));
    assert_eq!(Echo::parse("echo ''"), Err(EchoErr::NoMatch("echo ''".into())));
    assert!(!Echo::is_echo("echoes x"));
    assert!(Echo::is_echo("  echo x  "));
}

#[test]
fn echo_text_stops_at_a_quote() {
    assert_eq!(Echo::parse("echo 'a' b").unwrap(), Echo("a".into()));
    assert_eq!(Echo::parse("echo don't").unwrap(), Echo("don".into()));
}
