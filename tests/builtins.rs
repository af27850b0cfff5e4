use minishell::builtin_commands::{cd_target, check_builtin, BUILTINS};
use minishell::text::{same_text, split_by_ascii_whitespace, split_by_whitespace};

#[test]
fn exit_is_recognised() {
    assert_eq!(check_builtin("exit", false), BUILTINS::EXIT);
    assert_eq!(check_builtin("exit ", false), BUILTINS::NONE);
}

#[test]
fn cd_needs_a_path_and_success() {
    assert_eq!(cd_target("cd /tmp"), Some("/tmp".to_string()));
    assert_eq!(cd_target("  cd\tsrc extra"), Some("src".to_string()));
    assert_eq!(cd_target("cd"), None);
    assert_eq!(cd_target("ls /tmp"), None);
    assert_eq!(cd_target("cdx /tmp"), None);
    assert_eq!(check_builtin("cd /tmp", true), BUILTINS::CD);
    assert_eq!(check_builtin("cd /tmp", false), BUILTINS::NONE);
    assert_eq!(check_builtin("ls -la", true), BUILTINS::NONE);
}

#[test]
fn splits_on_whitespace_runs() {
    assert_eq!(split_by_whitespace("  ls   -la\t| wc\n"), vec!["ls", "-la", "|", "wc"]);
    assert!(split_by_whitespace("").is_empty());
    assert!(split_by_whitespace(" \t ").is_empty());
    assert_eq!(split_by_whitespace("a\u{3000}b"), vec!["a", "b"]);
    assert_eq!(split_by_ascii_whitespace("a\u{3000}b c"), vec!["a\u{3000}b", "c"]);
}

#[test]
fn compares_text() {
    assert!(same_text("abc", "abc"));
    assert!(!same_text("abc", "abd"));
    assert!(!same_text("ab", "abc"));
}
