use wpcsh::token::{tokenize, Lexer, Token};
use wpcsh::ShellError;

fn words(input: &str) -> Vec<String> {
    let toks = tokenize(input).expect("lexes");
    let mut out = Vec::new();
    for t in toks {
        match t {
            Token::Word(w) => out.push(w),
            Token::Eof => {}
            other => panic!("unexpected token {:?}", other),
        }
    }
    out
}

#[test]
fn lexes_plain_words() {
    let toks = tokenize("echo hi").unwrap();
    assert_eq!(
        toks,
        vec![
            Token::Word("echo".to_string()),
            Token::Word("hi".to_string()),
            Token::Eof
        ]
    );
}

#[test]
fn words_rejoined_with_single_spaces_lex_the_same() {
    let original = "foo   bar\tbaz";
    let ws = words(original);
    assert_eq!(ws, vec!["foo", "bar", "baz"]);
    let rejoined = ws.join(" ");
    assert_eq!(words(&rejoined), ws);
    assert_eq!(tokenize(&rejoined).unwrap(), tokenize("foo bar baz").unwrap());
}

#[test]
fn double_quotes_embed_variables_in_order() {
    let toks = tokenize("echo \"a $X b\"").unwrap();
    assert_eq!(
        toks,
        vec![
            Token::Word("echo".to_string()),
            Token::DoubleQuoted(vec![
                Token::Word("a ".to_string()),
                Token::Variable("X".to_string()),
                Token::Word(" b".to_string()),
            ]),
            Token::Eof
        ]
    );
}

#[test]
fn double_quote_tokens_do_not_depend_on_state() {
    // The lexer takes no shell state at all: the same text always lexes to
    // the same tokens, whatever X may be bound to at execution time.
    let a = tokenize("echo \"a $X b\"").unwrap();
    let b = tokenize("echo \"a $X b\"").unwrap();
    assert_eq!(a, b);
}

#[test]
fn unterminated_double_quote_is_invalid_input() {
    assert_eq!(tokenize("echo \"abc"), Err(ShellError::InvalidInput));
}

#[test]
fn unterminated_single_quote_is_invalid_input() {
    assert_eq!(tokenize("echo 'abc"), Err(ShellError::InvalidInput));
}

#[test]
fn single_quotes_are_opaque() {
    let toks = tokenize("'a $X b'").unwrap();
    assert_eq!(
        toks,
        vec![Token::SingleQuoted("a $X b".to_string()), Token::Eof]
    );
}

#[test]
fn two_character_operators_match_greedily() {
    let toks = tokenize("a&&b||c;d|e").unwrap();
    assert_eq!(
        toks,
        vec![
            Token::Word("a".to_string()),
            Token::AndIf,
            Token::Word("b".to_string()),
            Token::OrIf,
            Token::Word("c".to_string()),
            Token::Semicolon,
            Token::Word("d".to_string()),
            Token::Pipe,
            Token::Word("e".to_string()),
            Token::Eof
        ]
    );
}

#[test]
fn redirect_operators() {
    let toks = tokenize("< a > b >> c << d <> e").unwrap();
    assert_eq!(
        toks,
        vec![
            Token::RedirectIn,
            Token::Word("a".to_string()),
            Token::RedirectOut,
            Token::Word("b".to_string()),
            Token::RedirectAppend,
            Token::Word("c".to_string()),
            Token::Heredoc,
            Token::Word("d".to_string()),
            Token::RedirectInOut,
            Token::Word("e".to_string()),
            Token::Eof
        ]
    );
}

#[test]
fn variable_forms() {
    let toks = tokenize("$FOO ${BAR} $?").unwrap();
    assert_eq!(
        toks,
        vec![
            Token::Variable("FOO".to_string()),
            Token::VariableBraced("BAR".to_string()),
            Token::Variable("?".to_string()),
            Token::Eof
        ]
    );
}

#[test]
fn backslash_escapes_into_word() {
    let toks = tokenize("a\\ b").unwrap();
    assert_eq!(toks, vec![Token::Word("a b".to_string()), Token::Eof]);
}

#[test]
fn ampersand_alone_is_background() {
    let toks = tokenize("a &").unwrap();
    assert_eq!(
        toks,
        vec![Token::Word("a".to_string()), Token::Background, Token::Eof]
    );
}

#[test]
fn eof_repeats_past_end() {
    let mut lx = Lexer::new("x");
    assert_eq!(lx.next_token(), Ok(Token::Word("x".to_string())));
    assert_eq!(lx.next_token(), Ok(Token::Eof));
    assert_eq!(lx.next_token(), Ok(Token::Eof));
}

#[test]
fn newline_is_a_distinct_terminator() {
    let toks = tokenize("a\nb").unwrap();
    assert_eq!(
        toks,
        vec![
            Token::Word("a".to_string()),
            Token::Newline,
            Token::Word("b".to_string()),
            Token::Eof
        ]
    );
}
