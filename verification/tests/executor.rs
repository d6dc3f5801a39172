use wpcsh::ast::RedirectKind;
use wpcsh::exec::{
    is_builtin, parse_i32, pipeline_status, prepare_source_line, Action, Execution,
};
use wpcsh::parser::parse_line;
use wpcsh::shell::Shell;
use wpcsh::ShellError;

fn fresh_shell() -> Shell {
    Shell::new(vec![], "wpcsh".to_string()).expect("home directory discoverable")
}

fn begin(line: &str) -> Execution {
    Execution::begin(parse_line(line).expect("parses"))
}

fn expect_external(a: Option<Action>) -> (String, Vec<String>) {
    match a {
        Some(Action::RunExternal(plan)) => (plan.program, plan.args),
        other => panic!("expected an external spawn, got {:?}", action_name(&other)),
    }
}

fn action_name(a: &Option<Action>) -> &'static str {
    match a {
        None => "none",
        Some(Action::Done) => "done",
        Some(Action::RunExternal(_)) => "external",
        Some(Action::RunPipeline(_)) => "pipeline",
        Some(Action::ChangeDir(_)) => "chdir",
        Some(Action::RunSource(_)) => "source",
        Some(Action::Exit(_)) => "exit",
        Some(Action::ClearScreen) => "clear",
        Some(Action::Unsupported) => "unsupported",
    }
}

#[test]
fn sequential_list_reports_previous_status_through_question_mark() {
    // `false; echo $?` where `false` is a program returning 1: the second
    // statement's argument expands to "1".
    let mut sh = fresh_shell();
    let mut ex = begin("false; echo $?");
    let (prog, _) = expect_external(ex.next_action(&mut sh).unwrap());
    assert_eq!(prog, "false");
    sh.set_exit_status(1);
    let (prog2, args2) = expect_external(ex.next_action(&mut sh).unwrap());
    assert_eq!(prog2, "echo");
    assert_eq!(args2, vec!["1".to_string()]);
    assert!(ex.next_action(&mut sh).unwrap().is_none());
}

#[test]
fn and_runs_next_only_after_success() {
    let mut sh = fresh_shell();
    let mut ex = begin("true && echo ok");
    let (prog, _) = expect_external(ex.next_action(&mut sh).unwrap());
    assert_eq!(prog, "true");
    sh.set_exit_status(0);
    let (prog2, args2) = expect_external(ex.next_action(&mut sh).unwrap());
    assert_eq!(prog2, "echo");
    assert_eq!(args2, vec!["ok".to_string()]);
}

#[test]
fn and_skips_next_after_failure_and_keeps_status() {
    let mut sh = fresh_shell();
    let mut ex = begin("false && echo no");
    let (prog, _) = expect_external(ex.next_action(&mut sh).unwrap());
    assert_eq!(prog, "false");
    sh.set_exit_status(1);
    assert!(matches!(ex.next_action(&mut sh).unwrap(), Some(Action::Done)));
    assert!(ex.next_action(&mut sh).unwrap().is_none());
    assert_eq!(sh.exit_status(), 1);
}

#[test]
fn or_skips_next_after_success() {
    let mut sh = fresh_shell();
    let mut ex = begin("true || echo no");
    expect_external(ex.next_action(&mut sh).unwrap());
    sh.set_exit_status(0);
    assert!(matches!(ex.next_action(&mut sh).unwrap(), Some(Action::Done)));
}

#[test]
fn pipeline_plans_all_stages_and_status_is_the_last_stages() {
    let mut sh = fresh_shell();
    let mut ex = begin("printf b | sort");
    match ex.next_action(&mut sh).unwrap() {
        Some(Action::RunPipeline(plans)) => {
            assert_eq!(plans.len(), 2);
            assert_eq!(plans[0].program, "printf");
            assert_eq!(plans[0].args, vec!["b".to_string()]);
            assert_eq!(plans[1].program, "sort");
        }
        other => panic!("expected pipeline, got {:?}", action_name(&other)),
    }
    // The pipeline's reported status is sort's, not printf's.
    assert_eq!(pipeline_status(&vec![1, 0]), 0);
    assert_eq!(pipeline_status(&vec![0, 3]), 3);
    assert_eq!(pipeline_status(&vec![]), 0);
}

#[test]
fn output_and_append_redirects_reach_the_plan() {
    let mut sh = fresh_shell();
    let mut ex = begin("echo hi > f.txt");
    match ex.next_action(&mut sh).unwrap() {
        Some(Action::RunExternal(plan)) => {
            assert_eq!(plan.redirects.len(), 1);
            assert_eq!(plan.redirects[0].kind, RedirectKind::Output);
            assert_eq!(plan.redirects[0].target, "f.txt");
        }
        other => panic!("expected external, got {:?}", action_name(&other)),
    }
    let mut ex2 = begin("echo more >> f.txt");
    match ex2.next_action(&mut sh).unwrap() {
        Some(Action::RunExternal(plan)) => {
            assert_eq!(plan.redirects[0].kind, RedirectKind::Append);
        }
        other => panic!("expected external, got {:?}", action_name(&other)),
    }
}

#[test]
fn cd_computes_target_and_commit_mirrors_pwd() {
    let mut sh = fresh_shell();
    let mut ex = begin("cd /tmp");
    match ex.next_action(&mut sh).unwrap() {
        Some(Action::ChangeDir(target)) => {
            assert_eq!(target, "/tmp");
            sh.commit_change_directory(target);
        }
        other => panic!("expected chdir, got {:?}", action_name(&other)),
    }
    assert_eq!(sh.current_dir(), "/tmp");
    assert_eq!(sh.get_variable("PWD").unwrap(), "/tmp");
    assert_eq!(sh.exit_status(), 0);
}

#[test]
fn cd_with_excess_arguments_errors_with_status_one() {
    let mut sh = fresh_shell();
    let mut ex = begin("cd a b");
    assert_eq!(ex.next_action(&mut sh), Err(ShellError::InvalidInput));
    assert_eq!(sh.exit_status(), 1);
}

#[test]
fn export_builtin_records_each_assignment() {
    let mut sh = fresh_shell();
    let mut ex = begin("export FOO=1 BAR=two");
    assert!(matches!(ex.next_action(&mut sh).unwrap(), Some(Action::Done)));
    assert_eq!(sh.get_variable("FOO").unwrap(), "1");
    assert_eq!(sh.get_variable("BAR").unwrap(), "two");
    assert_eq!(sh.exit_status(), 0);
}

#[test]
fn export_node_records_single_assignment() {
    let mut sh = fresh_shell();
    let mut ex = begin("export ONE=1");
    assert!(matches!(ex.next_action(&mut sh).unwrap(), Some(Action::Done)));
    assert_eq!(sh.get_variable("ONE").unwrap(), "1");
}

#[test]
fn alias_builtin_feeds_later_resolution() {
    let mut sh = fresh_shell();
    let mut ex = begin("alias \"ll=ls -la\"");
    assert!(matches!(ex.next_action(&mut sh).unwrap(), Some(Action::Done)));
    let mut ex2 = begin("ll x");
    let (prog, args) = expect_external(ex2.next_action(&mut sh).unwrap());
    assert_eq!(prog, "ls");
    assert_eq!(args, vec!["-la".to_string(), "x".to_string()]);
}

#[test]
fn exit_parses_its_code_or_defaults_to_zero() {
    let mut sh = fresh_shell();
    assert!(matches!(
        begin("exit 3").next_action(&mut sh).unwrap(),
        Some(Action::Exit(3))
    ));
    assert!(matches!(
        begin("exit").next_action(&mut sh).unwrap(),
        Some(Action::Exit(0))
    ));
    assert!(matches!(
        begin("exit xyz").next_action(&mut sh).unwrap(),
        Some(Action::Exit(0))
    ));
}

#[test]
fn source_names_the_file_or_errors() {
    let mut sh = fresh_shell();
    match begin("source rc.sh").next_action(&mut sh).unwrap() {
        Some(Action::RunSource(path)) => assert_eq!(path, "rc.sh"),
        other => panic!("expected source, got {:?}", action_name(&other)),
    }
    assert_eq!(
        begin("source").next_action(&mut sh),
        Err(ShellError::InvalidInput)
    );
    assert_eq!(sh.exit_status(), 1);
}

#[test]
fn clear_asks_for_a_terminal_wipe() {
    let mut sh = fresh_shell();
    assert!(matches!(
        begin("clear").next_action(&mut sh).unwrap(),
        Some(Action::ClearScreen)
    ));
}

#[test]
fn deferred_constructs_are_rejected_explicitly() {
    // An explicit unsupported outcome, never a silent no-op -- and the
    // state stays untouched: `$?` still belongs to the most recently
    // completed command.
    let mut sh = fresh_shell();
    sh.set_exit_status(7);
    assert!(matches!(
        begin("if a; then b; fi").next_action(&mut sh).unwrap(),
        Some(Action::Unsupported)
    ));
    assert_eq!(sh.exit_status(), 7);
}

#[test]
fn heredoc_redirect_is_rejected_gracefully() {
    let mut sh = fresh_shell();
    sh.set_exit_status(7);
    assert!(matches!(
        begin("cat << EOF").next_action(&mut sh).unwrap(),
        Some(Action::Unsupported)
    ));
    assert_eq!(sh.exit_status(), 7);
}

#[test]
fn quoted_variables_expand_inside_arguments() {
    let mut sh = fresh_shell();
    sh.add_variable("FOO=bar");
    let mut ex = begin("echo \"v=$FOO\"");
    let (_, args) = expect_external(ex.next_action(&mut sh).unwrap());
    assert_eq!(args, vec!["v=bar".to_string()]);
}

#[test]
fn unterminated_quote_parses_to_nothing_executable() {
    // The line never reaches the executor: no action, no process.
    assert_eq!(parse_line("echo \"abc"), Err(ShellError::InvalidInput));
}

#[test]
fn source_lines_skip_blanks_and_comments() {
    assert_eq!(prepare_source_line("   "), None);
    assert_eq!(prepare_source_line("# note"), None);
    assert_eq!(prepare_source_line("  echo hi "), Some("echo hi".to_string()));
}

#[test]
fn cd_tilde_resolves_against_home() {
    let mut sh = fresh_shell();
    let home = sh.home_dir().clone();
    let mut ex = begin("cd ~/somewhere");
    match ex.next_action(&mut sh).unwrap() {
        Some(Action::ChangeDir(target)) => {
            assert_eq!(target, format!("{}/somewhere", home));
        }
        other => panic!("expected chdir, got {:?}", action_name(&other)),
    }
}

#[test]
fn braced_variables_resolve_in_arguments() {
    let mut sh = fresh_shell();
    sh.add_variable("DIR=/srv");
    let mut ex = begin("ls ${DIR}");
    let (prog, args) = expect_external(ex.next_action(&mut sh).unwrap());
    assert_eq!(prog, "ls");
    assert_eq!(args, vec!["/srv".to_string()]);
}

#[test]
fn builtin_set_is_fixed() {
    for b in ["cd", "exit", "export", "alias", "source", "clear"] {
        assert!(is_builtin(b));
    }
    assert!(!is_builtin("ls"));
    assert!(!is_builtin("echo"));
}

#[test]
fn parses_exit_codes_in_range() {
    assert_eq!(parse_i32("42"), Some(42));
    assert_eq!(parse_i32("-3"), Some(-3));
    assert_eq!(parse_i32("+7"), Some(7));
    assert_eq!(parse_i32(""), None);
    assert_eq!(parse_i32("x1"), None);
    assert_eq!(parse_i32("2147483647"), Some(2147483647));
    assert_eq!(parse_i32("2147483648"), None);
    assert_eq!(parse_i32("-2147483648"), Some(-2147483648));
    assert_eq!(parse_i32("-2147483649"), None);
    assert_eq!(parse_i32("99999999999999999999"), None);
}
