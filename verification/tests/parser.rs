use wpcsh::ast::{ListOp, Node, Redirect, RedirectKind, Word};
use wpcsh::parser::parse_line;
use wpcsh::ShellError;

fn lit(s: &str) -> Word {
    Word::Literal(s.to_string())
}

#[test]
fn parses_simple_command() {
    let n = parse_line("echo hi there").unwrap();
    assert_eq!(
        n,
        Node::Command {
            name: lit("echo"),
            args: vec![lit("hi"), lit("there")],
            redirects: vec![],
        }
    );
}

#[test]
fn parses_output_redirect() {
    let n = parse_line("echo hi > f.txt").unwrap();
    assert_eq!(
        n,
        Node::Command {
            name: lit("echo"),
            args: vec![lit("hi")],
            redirects: vec![Redirect {
                kind: RedirectKind::Output,
                target: lit("f.txt")
            }],
        }
    );
}

#[test]
fn parses_append_redirect_distinct_from_truncate() {
    let once = parse_line("echo hi > f.txt").unwrap();
    let append = parse_line("echo hi >> f.txt").unwrap();
    assert_ne!(once, append);
    match append {
        Node::Command { redirects, .. } => {
            assert_eq!(redirects.len(), 1);
            assert_eq!(redirects[0].kind, RedirectKind::Append);
        }
        other => panic!("expected command, got {:?}", other),
    }
}

#[test]
fn parses_input_redirect() {
    let n = parse_line("sort < data").unwrap();
    match n {
        Node::Command { redirects, .. } => {
            assert_eq!(redirects[0].kind, RedirectKind::Input);
        }
        other => panic!("expected command, got {:?}", other),
    }
}

#[test]
fn parses_pipeline_in_order() {
    let n = parse_line("printf x | sort | uniq").unwrap();
    match n {
        Node::Pipeline { commands } => {
            assert_eq!(commands.len(), 3);
            assert_eq!(
                commands[0],
                Node::Command {
                    name: lit("printf"),
                    args: vec![lit("x")],
                    redirects: vec![]
                }
            );
            assert_eq!(
                commands[2],
                Node::Command {
                    name: lit("uniq"),
                    args: vec![],
                    redirects: vec![]
                }
            );
        }
        other => panic!("expected pipeline, got {:?}", other),
    }
}

#[test]
fn parses_list_with_operators() {
    let n = parse_line("a && b || c; d").unwrap();
    match n {
        Node::List {
            statements,
            operators,
        } => {
            assert_eq!(statements.len(), 4);
            assert_eq!(operators, vec![ListOp::And, ListOp::Or, ListOp::Sequential]);
        }
        other => panic!("expected list, got {:?}", other),
    }
}

#[test]
fn trailing_semicolon_keeps_single_statement_bare() {
    let n = parse_line("echo hi;").unwrap();
    assert!(matches!(n, Node::Command { .. }));
}

#[test]
fn empty_line_is_empty_list() {
    let n = parse_line("").unwrap();
    assert_eq!(
        n,
        Node::List {
            statements: vec![],
            operators: vec![]
        }
    );
}

#[test]
fn unterminated_quote_fails_to_parse() {
    assert_eq!(parse_line("echo \"abc"), Err(ShellError::InvalidInput));
}

#[test]
fn background_token_is_rejected() {
    assert_eq!(parse_line("a &"), Err(ShellError::InvalidInput));
}

#[test]
fn redirect_without_target_is_rejected() {
    assert_eq!(parse_line("echo >"), Err(ShellError::InvalidInput));
}

#[test]
fn leading_pipe_is_rejected() {
    assert_eq!(parse_line("| sort"), Err(ShellError::InvalidInput));
}

#[test]
fn parses_export_with_value() {
    let n = parse_line("export A=1").unwrap();
    match n {
        Node::Export { name, value } => {
            assert_eq!(name, "A");
            assert_eq!(*value.unwrap(), Node::StringLiteral("1".to_string()));
        }
        other => panic!("expected export, got {:?}", other),
    }
}

#[test]
fn export_value_keeps_later_equals_signs() {
    let n = parse_line("export A=x=y").unwrap();
    match n {
        Node::Export { name, value } => {
            assert_eq!(name, "A");
            assert_eq!(*value.unwrap(), Node::StringLiteral("x=y".to_string()));
        }
        other => panic!("expected export, got {:?}", other),
    }
}

#[test]
fn parses_export_without_value() {
    let n = parse_line("export A").unwrap();
    assert_eq!(
        n,
        Node::Export {
            name: "A".to_string(),
            value: None
        }
    );
}

#[test]
fn multi_assignment_export_stays_a_command() {
    let n = parse_line("export A=1 B=2").unwrap();
    match n {
        Node::Command { name, args, .. } => {
            assert_eq!(name, lit("export"));
            assert_eq!(args, vec![lit("A=1"), lit("B=2")]);
        }
        other => panic!("expected command, got {:?}", other),
    }
}

#[test]
fn parses_if_with_nested_body() {
    let n = parse_line("if test -f x; then echo yes; else echo no; fi").unwrap();
    match n {
        Node::IfStatement {
            condition,
            then_body,
            elif_branches,
            else_branch,
        } => {
            assert!(matches!(*condition, Node::Command { .. }));
            assert!(matches!(*then_body, Node::Command { .. }));
            assert!(elif_branches.is_empty());
            assert!(matches!(
                *else_branch.unwrap(),
                Node::ElseBranch { .. }
            ));
        }
        other => panic!("expected if, got {:?}", other),
    }
}

#[test]
fn parses_elif_branches() {
    let n = parse_line("if a; then b; elif c; then d; fi").unwrap();
    match n {
        Node::IfStatement { elif_branches, .. } => {
            assert_eq!(elif_branches.len(), 1);
            assert!(matches!(elif_branches[0], Node::ElifBranch { .. }));
        }
        other => panic!("expected if, got {:?}", other),
    }
}

#[test]
fn unterminated_if_is_rejected() {
    assert_eq!(
        parse_line("if a; then b"),
        Err(ShellError::InvalidInput)
    );
}

#[test]
fn parses_while_and_until_loops() {
    assert!(matches!(
        parse_line("while a; do b; done").unwrap(),
        Node::WhileLoop { .. }
    ));
    assert!(matches!(
        parse_line("until a; do b; done").unwrap(),
        Node::UntilLoop { .. }
    ));
}

#[test]
fn parses_for_loop_with_items() {
    let n = parse_line("for x in a b c; do echo $x; done").unwrap();
    match n {
        Node::ForLoop { var, items, body } => {
            assert_eq!(var, "x");
            assert_eq!(items, vec![lit("a"), lit("b"), lit("c")]);
            assert!(matches!(*body, Node::Command { .. }));
        }
        other => panic!("expected for loop, got {:?}", other),
    }
}

#[test]
fn parses_case_statement() {
    let n = parse_line("case $x in a|b) echo one;; *) echo other;; esac").unwrap();
    match n {
        Node::CaseStatement { word, arms } => {
            assert_eq!(word, Word::Variable("x".to_string()));
            assert_eq!(arms.len(), 2);
            assert_eq!(arms[0].patterns, vec![lit("a"), lit("b")]);
        }
        other => panic!("expected case, got {:?}", other),
    }
}

#[test]
fn parses_function_definitions() {
    assert!(matches!(
        parse_line("function greet { echo hi; }").unwrap(),
        Node::Function { .. }
    ));
    assert!(matches!(
        parse_line("greet() { echo hi; }").unwrap(),
        Node::Function { .. }
    ));
}

#[test]
fn parses_subshell_and_group() {
    assert!(matches!(
        parse_line("(echo hi)").unwrap(),
        Node::Subshell { .. }
    ));
    assert!(matches!(
        parse_line("{ echo hi; }").unwrap(),
        Node::Group { .. }
    ));
}

#[test]
fn parses_negation_and_history() {
    assert!(matches!(
        parse_line("! grep x f").unwrap(),
        Node::Negation { .. }
    ));
    assert!(matches!(
        parse_line("!!").unwrap(),
        Node::HistoryExpansion { .. }
    ));
}

#[test]
fn parses_comment() {
    let n = parse_line("# just a note").unwrap();
    assert!(matches!(n, Node::Comment(_)));
}

#[test]
fn parses_command_substitution_and_arithmetic() {
    assert!(matches!(
        parse_line("$(echo hi)").unwrap(),
        Node::CommandSubstitution { .. }
    ));
    assert!(matches!(
        parse_line("$((1+2))").unwrap(),
        Node::ArithmeticExpansion { .. }
    ));
    assert!(matches!(
        parse_line("((1+2))").unwrap(),
        Node::ArithmeticCommand { .. }
    ));
}

#[test]
fn parses_remaining_recognized_forms() {
    assert!(matches!(
        parse_line("return 3").unwrap(),
        Node::Return { value: Some(_) }
    ));
    assert!(matches!(
        parse_line("complete -W list cmd").unwrap(),
        Node::Complete { .. }
    ));
    assert!(matches!(
        parse_line("select x in a b; do echo $x; done").unwrap(),
        Node::SelectStatement { .. }
    ));
    assert!(matches!(
        parse_line("[[ a == b ]]").unwrap(),
        Node::ExtendedTest { .. }
    ));
    assert!(matches!(
        parse_line("xs=(a b c)").unwrap(),
        Node::Array { .. }
    ));
    assert!(matches!(
        parse_line("<(echo hi)").unwrap(),
        Node::ProcessSubstitution { .. }
    ));
}

#[test]
fn keywords_mid_command_are_plain_words() {
    let n = parse_line("echo if then").unwrap();
    assert_eq!(
        n,
        Node::Command {
            name: lit("echo"),
            args: vec![lit("if"), lit("then")],
            redirects: vec![],
        }
    );
}
