use wpcsh::ast::Word;
use wpcsh::shell::{int_to_string, normalize_path, Shell};
use wpcsh::ShellError;

fn fresh_shell() -> Shell {
    Shell::new(vec![("LANG".to_string(), "C".to_string())], "wpcsh".to_string())
        .expect("home directory discoverable")
}

#[test]
fn seeds_environment_and_overwrites_computed_variables() {
    let sh = fresh_shell();
    assert_eq!(sh.get_variable("LANG").unwrap(), "C");
    assert_eq!(sh.get_variable("SHELL").unwrap(), "wpcsh");
    let home = sh.home_dir().clone();
    assert_eq!(sh.get_variable("HOME").unwrap(), &home);
    assert_eq!(sh.get_variable("PWD").unwrap(), &home);
    assert_eq!(sh.current_dir(), &home);
    assert_eq!(sh.exit_status(), 0);
}

#[test]
fn add_variable_splits_and_trims() {
    let mut sh = fresh_shell();
    sh.add_variable("FOO=bar");
    assert_eq!(sh.get_variable("FOO").unwrap(), "bar");
    assert_eq!(sh.exit_status(), 0);

    sh.add_variable(" K =\"quoted value\"");
    assert_eq!(sh.get_variable("K").unwrap(), "quoted value");

    sh.add_variable("A=x=y");
    assert_eq!(sh.get_variable("A").unwrap(), "x=y");
}

#[test]
fn add_variable_without_equals_fails_with_status_one() {
    let mut sh = fresh_shell();
    sh.add_variable("nope");
    assert_eq!(sh.exit_status(), 1);
    assert!(sh.get_variable("nope").is_none());
}

#[test]
fn later_assignment_wins() {
    let mut sh = fresh_shell();
    sh.add_variable("X=1");
    sh.add_variable("X=2");
    assert_eq!(sh.get_variable("X").unwrap(), "2");
}

#[test]
fn alias_resolution_expands_replacement_words() {
    let mut sh = fresh_shell();
    sh.add_alias("ll=\"ls -la\"");
    let (name, args) = sh.resolve_alias(&"ll".to_string(), &vec!["x".to_string()]);
    assert_eq!(name, "ls");
    assert_eq!(args, vec!["-la".to_string(), "x".to_string()]);
}

#[test]
fn mutually_referential_aliases_terminate() {
    let mut sh = fresh_shell();
    sh.add_alias("ll=\"ls -la\"");
    sh.add_alias("ls=ll");
    // ll -> ls -la -> (ls is aliased back) ll -la; ll already seen: stop.
    let (name, args) = sh.resolve_alias(&"ll".to_string(), &vec![]);
    assert_eq!(name, "ll");
    assert_eq!(args, vec!["-la".to_string()]);
}

#[test]
fn self_alias_terminates() {
    let mut sh = fresh_shell();
    sh.add_alias("a=a");
    let (name, args) = sh.resolve_alias(&"a".to_string(), &vec![]);
    assert_eq!(name, "a");
    assert!(args.is_empty());
}

#[test]
fn variable_expansion_uses_store_or_literal() {
    let mut sh = fresh_shell();
    sh.add_variable("FOO=bar");
    assert_eq!(sh.expand_word(&Word::Variable("FOO".to_string())), "bar");
    assert_eq!(
        sh.expand_word(&Word::Variable("MISSING".to_string())),
        "$MISSING"
    );
    assert_eq!(
        sh.expand_word(&Word::VariableBraced("MISSING".to_string())),
        "${MISSING}"
    );
}

#[test]
fn question_mark_is_always_the_exit_status() {
    let mut sh = fresh_shell();
    sh.add_variable("?=fake");
    // the interception: `?` is never materialized into the variable table
    assert!(sh.get_variable("?").is_none());
    sh.set_exit_status(7);
    assert_eq!(sh.expand_word(&Word::Variable("?".to_string())), "7");
}

#[test]
fn single_quotes_suppress_expansion() {
    let sh = fresh_shell();
    assert_eq!(
        sh.expand_word(&Word::SingleQuoted("$FOO".to_string())),
        "$FOO"
    );
}

#[test]
fn tilde_expands_to_home() {
    let sh = fresh_shell();
    let home = sh.home_dir().clone();
    assert_eq!(
        sh.expand_word(&Word::Literal("~/notes".to_string())),
        format!("{}/notes", home)
    );
}

#[test]
fn double_quoted_pieces_concatenate() {
    let mut sh = fresh_shell();
    sh.add_variable("X=mid");
    let w = Word::DoubleQuoted(vec![
        wpcsh::ast::QuotedPiece::Literal("a ".to_string()),
        wpcsh::ast::QuotedPiece::Variable("X".to_string()),
        wpcsh::ast::QuotedPiece::Literal(" b".to_string()),
    ]);
    assert_eq!(sh.expand_word(&w), "a mid b");
}

#[test]
fn normalizes_paths_lexically() {
    assert_eq!(normalize_path("/a/b/../c/./d"), "/a/c/d");
    assert_eq!(normalize_path("/a/.."), "/");
    assert_eq!(normalize_path("/.."), "/");
    assert_eq!(normalize_path("a/../b"), "b");
    assert_eq!(normalize_path("//a//b"), "/a/b");
}

#[test]
fn cd_prepares_normalized_targets() {
    let mut sh = fresh_shell();
    sh.commit_change_directory("/x/y".to_string());
    let target = sh
        .prepare_change_directory(&vec!["..".to_string()])
        .unwrap();
    assert_eq!(target, "/x");
    let abs = sh
        .prepare_change_directory(&vec!["/tmp".to_string()])
        .unwrap();
    assert_eq!(abs, "/tmp");
}

#[test]
fn cd_with_excess_arguments_is_rejected() {
    let sh = fresh_shell();
    assert_eq!(
        sh.prepare_change_directory(&vec!["a".to_string(), "b".to_string()]),
        Err(ShellError::InvalidInput)
    );
}

#[test]
fn committed_cd_updates_record_and_pwd_together() {
    let mut sh = fresh_shell();
    sh.set_exit_status(1);
    sh.commit_change_directory("/x/y".to_string());
    assert_eq!(sh.current_dir(), "/x/y");
    assert_eq!(sh.get_variable("PWD").unwrap(), "/x/y");
    assert_eq!(sh.exit_status(), 0);
}

#[test]
fn failed_cd_sets_status_one() {
    let mut sh = fresh_shell();
    let before = sh.current_dir().clone();
    sh.fail_change_directory();
    assert_eq!(sh.exit_status(), 1);
    assert_eq!(sh.current_dir(), &before);
}

#[test]
fn renders_integers_in_decimal() {
    assert_eq!(int_to_string(0), "0");
    assert_eq!(int_to_string(42), "42");
    assert_eq!(int_to_string(-5), "-5");
    assert_eq!(int_to_string(2147483647), "2147483647");
    assert_eq!(int_to_string(-2147483648), "-2147483648");
}
