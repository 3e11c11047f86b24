use mybash::utils::{is_input_fn, remove_comments};

#[test]
fn should_ignore_line_comment() {
    let expr = "# I am a line comment";
    assert_eq!(remove_comments(expr), "".to_string());
}

#[test]
fn should_remove_inline_comment() {
    let expr = "echo \"Hello, World\" # I am an inline comment";
    assert_eq!(remove_comments(expr), "echo \"Hello, World\"".to_string());
}

#[test]
fn should_ignore_scaped_comments() {
    let expr = r#"name: string = "\#hash\#" # I am a comment"#;
    assert_eq!(
        remove_comments(expr),
        "name: string = \"#hash#\"".to_string()
    );
}

#[test]
fn line_without_comment_is_trimmed() {
    assert_eq!(remove_comments("  echo a \\# b  "), "echo a # b");
}

#[test]
fn input_calls_are_spotted() {
    assert!(is_input_fn("name: str = input('Your name: ')"));
    assert!(is_input_fn("input(x)"));
    assert!(!is_input_fn("input()"));
    assert!(!is_input_fn("input('x'"));
    assert!(!is_input_fn("echo hi"));
}
