use vstd::prelude::*;

verus! {

/// One lexical token of the shell grammar. Words carry their text; quoted
/// spans carry their contents (a double-quoted span holds an ordered mix of
/// literal words and variable references); `Variable`/`VariableBraced` carry
/// the referenced name. Past end of input the lexer yields `Eof` forever.
#[derive(Debug, PartialEq, Eq)]
pub enum Token {
    Word(String),

    Newline,
    Semicolon,

    Pipe,
    AndIf,
    OrIf,
    Background,

    RedirectIn,
    RedirectOut,
    RedirectAppend,
    RedirectInOut,
    Heredoc,

    SingleQuoted(String),
    DoubleQuoted(Vec<Token>),

    Variable(String),
    VariableBraced(String),

    LParen,
    RParen,
    LBrace,
    RBrace,

    Eof,
}

/// The mathematical shape of a `Token`: the same tags over `Seq<char>`
/// in place of `String`, so contracts can speak of token contents directly.
pub enum TokView {
    Word(Seq<char>),

    Newline,
    Semicolon,

    Pipe,
    AndIf,
    OrIf,
    Background,

    RedirectIn,
    RedirectOut,
    RedirectAppend,
    RedirectInOut,
    Heredoc,

    SingleQuoted(Seq<char>),
    DoubleQuoted(Seq<TokView>),

    Variable(Seq<char>),
    VariableBraced(Seq<char>),

    LParen,
    RParen,
    LBrace,
    RBrace,

    Eof,
}

impl View for Token {
    type V = TokView;

    open spec fn view(&self) -> TokView
        decreases self,
    {
        match self {
            Token::Word(s) => TokView::Word(s@),
            Token::Newline => TokView::Newline,
            Token::Semicolon => TokView::Semicolon,
            Token::Pipe => TokView::Pipe,
            Token::AndIf => TokView::AndIf,
            Token::OrIf => TokView::OrIf,
            Token::Background => TokView::Background,
            Token::RedirectIn => TokView::RedirectIn,
            Token::RedirectOut => TokView::RedirectOut,
            Token::RedirectAppend => TokView::RedirectAppend,
            Token::RedirectInOut => TokView::RedirectInOut,
            Token::Heredoc => TokView::Heredoc,
            Token::SingleQuoted(s) => TokView::SingleQuoted(s@),
            Token::DoubleQuoted(ts) => TokView::DoubleQuoted(
                Seq::new(
                    ts@.len(),
                    |i: int| if 0 <= i < ts@.len() {
                        ts[i]@
                    } else {
                        TokView::Eof
                    },
                ),
            ),
            Token::Variable(s) => TokView::Variable(s@),
            Token::VariableBraced(s) => TokView::VariableBraced(s@),
            Token::LParen => TokView::LParen,
            Token::RParen => TokView::RParen,
            Token::LBrace => TokView::LBrace,
            Token::RBrace => TokView::RBrace,
            Token::Eof => TokView::Eof,
        }
    }
}

/// Space and tab separate words and are otherwise insignificant.
pub open spec fn blank_char(c: char) -> bool {
    c == ' ' || c == '\t'
}

/// The characters that end a word and introduce an operator or quote.
pub open spec fn operator_char(c: char) -> bool {
    c == '|' || c == '&' || c == ';' || c == '<' || c == '>' || c == '(' || c == ')'
        || c == '{' || c == '}' || c == '"' || c == '\'' || c == '$'
}

/// A word runs until whitespace, a newline, or an operator-introducing character.
pub open spec fn word_break_char(c: char) -> bool {
    blank_char(c) || c == '\n' || operator_char(c)
}

/// The characters allowed in an unbraced `$name` reference.
pub open spec fn name_char(c: char) -> bool {
    ('a' <= c && c <= 'z') || ('A' <= c && c <= 'Z') || ('0' <= c && c <= '9') || c == '_'
}

/// Position after any run of spaces and tabs starting at `p`.
pub open spec fn skip_blanks(s: Seq<char>, p: nat) -> nat
    decreases s.len() - p,
{
    if p < s.len() && blank_char(s[p as int]) {
        skip_blanks(s, (p + 1) as nat)
    } else {
        p
    }
}

pub proof fn lemma_skip_blanks(s: Seq<char>, p: nat)
    requires
        p <= s.len(),
    ensures
        p <= skip_blanks(s, p) <= s.len(),
        skip_blanks(s, p) < s.len() ==> !blank_char(s[skip_blanks(s, p) as int]),
    decreases s.len() - p,
{
    if p < s.len() && blank_char(s[p as int]) {
        lemma_skip_blanks(s, (p + 1) as nat);
    }
}

/// Text and end position of a word scanned from `p`, appended to `acc`.
/// An unquoted backslash escapes the next character into the word verbatim;
/// a trailing backslash is consumed and contributes nothing.
pub open spec fn scan_word(s: Seq<char>, p: nat, acc: Seq<char>) -> (Seq<char>, nat)
    decreases s.len() - p,
{
    if p >= s.len() {
        (acc, p)
    } else if word_break_char(s[p as int]) {
        (acc, p)
    } else if s[p as int] == '\\' {
        if p + 1 < s.len() {
            scan_word(s, (p + 2) as nat, acc.push(s[p + 1 as int]))
        } else {
            (acc, s.len())
        }
    } else {
        scan_word(s, (p + 1) as nat, acc.push(s[p as int]))
    }
}

pub proof fn lemma_scan_word(s: Seq<char>, p: nat, acc: Seq<char>)
    requires
        p <= s.len(),
    ensures
        p <= scan_word(s, p, acc).1 <= s.len(),
        p < s.len() && !word_break_char(s[p as int]) ==> p < scan_word(s, p, acc).1,
    decreases s.len() - p,
{
    if p < s.len() && !word_break_char(s[p as int]) {
        if s[p as int] == '\\' {
            if p + 1 < s.len() {
                lemma_scan_word(s, (p + 2) as nat, acc.push(s[p + 1 as int]));
            }
        } else {
            lemma_scan_word(s, (p + 1) as nat, acc.push(s[p as int]));
        }
    }
}

/// Contents and end position of a single-quoted span whose opening quote
/// stands just before `p`; `None` if the quote is never closed.
pub open spec fn scan_single(s: Seq<char>, p: nat, acc: Seq<char>) -> Option<(Seq<char>, nat)>
    decreases s.len() - p,
{
    if p >= s.len() {
        None
    } else if s[p as int] == '\'' {
        Some((acc, (p + 1) as nat))
    } else {
        scan_single(s, (p + 1) as nat, acc.push(s[p as int]))
    }
}

pub proof fn lemma_scan_single(s: Seq<char>, p: nat, acc: Seq<char>)
    requires
        p <= s.len(),
    ensures
        scan_single(s, p, acc) matches Some(r) ==> p < r.1 <= s.len(),
    decreases s.len() - p,
{
    if p < s.len() && s[p as int] != '\'' {
        lemma_scan_single(s, (p + 1) as nat, acc.push(s[p as int]));
    }
}

/// Name characters scanned from `p`, appended to `acc`, with the end position.
pub open spec fn scan_name(s: Seq<char>, p: nat, acc: Seq<char>) -> (Seq<char>, nat)
    decreases s.len() - p,
{
    if p < s.len() && name_char(s[p as int]) {
        scan_name(s, (p + 1) as nat, acc.push(s[p as int]))
    } else {
        (acc, p)
    }
}

pub proof fn lemma_scan_name(s: Seq<char>, p: nat, acc: Seq<char>)
    requires
        p <= s.len(),
    ensures
        p <= scan_name(s, p, acc).1 <= s.len(),
    decreases s.len() - p,
{
    if p < s.len() && name_char(s[p as int]) {
        lemma_scan_name(s, (p + 1) as nat, acc.push(s[p as int]));
    }
}

/// Characters scanned from `p` up to a closing `}` (consumed) or the end of
/// input, with the end position.
pub open spec fn scan_braced(s: Seq<char>, p: nat, acc: Seq<char>) -> (Seq<char>, nat)
    decreases s.len() - p,
{
    if p >= s.len() {
        (acc, p)
    } else if s[p as int] == '}' {
        (acc, (p + 1) as nat)
    } else {
        scan_braced(s, (p + 1) as nat, acc.push(s[p as int]))
    }
}

pub proof fn lemma_scan_braced(s: Seq<char>, p: nat, acc: Seq<char>)
    requires
        p <= s.len(),
    ensures
        p <= scan_braced(s, p, acc).1 <= s.len(),
    decreases s.len() - p,
{
    if p < s.len() && s[p as int] != '}' {
        lemma_scan_braced(s, (p + 1) as nat, acc.push(s[p as int]));
    }
}

/// The variable token introduced by a `$` standing just before `p`:
/// `${name}` becomes `VariableBraced`, `$?` becomes `Variable("?")`, and a
/// run of name characters (possibly empty) becomes `Variable`.
pub open spec fn spec_variable(s: Seq<char>, p: nat) -> (TokView, nat) {
    if p < s.len() && s[p as int] == '{' {
        let (name, q) = scan_braced(s, (p + 1) as nat, Seq::empty());
        (TokView::VariableBraced(name), q)
    } else if p < s.len() && s[p as int] == '?' {
        (TokView::Variable(seq!['?']), (p + 1) as nat)
    } else {
        let (name, q) = scan_name(s, p, Seq::empty());
        (TokView::Variable(name), q)
    }
}

pub proof fn lemma_spec_variable(s: Seq<char>, p: nat)
    requires
        p <= s.len(),
    ensures
        p <= spec_variable(s, p).1 <= s.len(),
{
    if p < s.len() && s[p as int] == '{' {
        lemma_scan_braced(s, (p + 1) as nat, Seq::empty());
    } else if p < s.len() && s[p as int] == '?' {
    } else {
        lemma_scan_name(s, p, Seq::empty());
    }
}

/// Tokens and end position of a double-quoted span whose opening quote stands
/// just before `p`: literal runs become `Word` tokens interleaved in order
/// with the `Variable`/`VariableBraced` tokens introduced by `$`; a backslash
/// escapes the next character; `None` if the quote is never closed.
pub open spec fn scan_double(s: Seq<char>, p: nat, toks: Seq<TokView>, buf: Seq<char>) -> Option<
    (Seq<TokView>, nat),
>
    decreases s.len() - p,
{
    if p >= s.len() {
        None
    } else if s[p as int] == '"' {
        Some(((if buf.len() > 0 { toks.push(TokView::Word(buf)) } else { toks }), (p + 1) as nat))
    } else if s[p as int] == '$' {
        let toks2 = if buf.len() > 0 { toks.push(TokView::Word(buf)) } else { toks };
        let (t, q) = spec_variable(s, (p + 1) as nat);
        proof {
            lemma_spec_variable(s, (p + 1) as nat);
        }
        scan_double(s, q, toks2.push(t), Seq::empty())
    } else if s[p as int] == '\\' {
        if p + 1 < s.len() {
            scan_double(s, (p + 2) as nat, toks, buf.push(s[p + 1 as int]))
        } else {
            None
        }
    } else {
        scan_double(s, (p + 1) as nat, toks, buf.push(s[p as int]))
    }
}

pub proof fn lemma_scan_double(s: Seq<char>, p: nat, toks: Seq<TokView>, buf: Seq<char>)
    requires
        p <= s.len(),
    ensures
        scan_double(s, p, toks, buf) matches Some(r) ==> p < r.1 <= s.len(),
    decreases s.len() - p,
{
    if p >= s.len() {
    } else if s[p as int] == '"' {
    } else if s[p as int] == '$' {
        let toks2 = if buf.len() > 0 { toks.push(TokView::Word(buf)) } else { toks };
        let (t, q) = spec_variable(s, (p + 1) as nat);
        lemma_spec_variable(s, (p + 1) as nat);
        lemma_scan_double(s, q, toks2.push(t), Seq::empty());
    } else if s[p as int] == '\\' {
        if p + 1 < s.len() {
            lemma_scan_double(s, (p + 2) as nat, toks, buf.push(s[p + 1 as int]));
        }
    } else {
        lemma_scan_double(s, (p + 1) as nat, toks, buf.push(s[p as int]));
    }
}

/// The next token starting at `p`, with the cursor position after it.
/// Space and tab are skipped first; two-character operators are matched
/// before their one-character fallbacks; an unterminated single or double
/// quote is an `InvalidInput` error; at the end of input the token is `Eof`.
pub open spec fn spec_next_token(s: Seq<char>, p0: nat) -> (Result<TokView, crate::ShellError>, nat) {
    let p = skip_blanks(s, p0);
    if p >= s.len() {
        (Ok(TokView::Eof), p)
    } else {
        let c = s[p as int];
        if c == '\n' {
            (Ok(TokView::Newline), (p + 1) as nat)
        } else if c == ';' {
            (Ok(TokView::Semicolon), (p + 1) as nat)
        } else if c == '&' {
            if p + 1 < s.len() && s[p + 1 as int] == '&' {
                (Ok(TokView::AndIf), (p + 2) as nat)
            } else {
                (Ok(TokView::Background), (p + 1) as nat)
            }
        } else if c == '|' {
            if p + 1 < s.len() && s[p + 1 as int] == '|' {
                (Ok(TokView::OrIf), (p + 2) as nat)
            } else {
                (Ok(TokView::Pipe), (p + 1) as nat)
            }
        } else if c == '<' {
            if p + 1 < s.len() && s[p + 1 as int] == '<' {
                (Ok(TokView::Heredoc), (p + 2) as nat)
            } else if p + 1 < s.len() && s[p + 1 as int] == '>' {
                (Ok(TokView::RedirectInOut), (p + 2) as nat)
            } else {
                (Ok(TokView::RedirectIn), (p + 1) as nat)
            }
        } else if c == '>' {
            if p + 1 < s.len() && s[p + 1 as int] == '>' {
                (Ok(TokView::RedirectAppend), (p + 2) as nat)
            } else {
                (Ok(TokView::RedirectOut), (p + 1) as nat)
            }
        } else if c == '(' {
            (Ok(TokView::LParen), (p + 1) as nat)
        } else if c == ')' {
            (Ok(TokView::RParen), (p + 1) as nat)
        } else if c == '{' {
            (Ok(TokView::LBrace), (p + 1) as nat)
        } else if c == '}' {
            (Ok(TokView::RBrace), (p + 1) as nat)
        } else if c == '\'' {
            match scan_single(s, (p + 1) as nat, Seq::empty()) {
                Some((text, q)) => (Ok(TokView::SingleQuoted(text)), q),
                None => (Err(crate::ShellError::InvalidInput), s.len()),
            }
        } else if c == '"' {
            match scan_double(s, (p + 1) as nat, Seq::empty(), Seq::empty()) {
                Some((toks, q)) => (Ok(TokView::DoubleQuoted(toks)), q),
                None => (Err(crate::ShellError::InvalidInput), s.len()),
            }
        } else if c == '$' {
            let (t, q) = spec_variable(s, (p + 1) as nat);
            (Ok(t), q)
        } else {
            let (text, q) = scan_word(s, p, Seq::empty());
            (Ok(TokView::Word(text)), q)
        }
    }
}

pub proof fn lemma_spec_next_token(s: Seq<char>, p0: nat)
    requires
        p0 <= s.len(),
    ensures
        p0 <= spec_next_token(s, p0).1 <= s.len(),
        spec_next_token(s, p0).0 != Ok::<TokView, crate::ShellError>(TokView::Eof) ==> p0
            < spec_next_token(s, p0).1,
        spec_next_token(s, p0).0 == Ok::<TokView, crate::ShellError>(TokView::Eof)
            ==> spec_next_token(s, p0).1 == s.len(),
{
    lemma_skip_blanks(s, p0);
    let p = skip_blanks(s, p0);
    if p < s.len() {
        let c = s[p as int];
        if c == '\'' {
            lemma_scan_single(s, (p + 1) as nat, Seq::empty());
        } else if c == '"' {
            lemma_scan_double(s, (p + 1) as nat, Seq::empty(), Seq::empty());
        } else if c == '$' {
            lemma_spec_variable(s, (p + 1) as nat);
        } else if !(c == '\n' || c == ';' || c == '&' || c == '|' || c == '<' || c == '>' || c
            == '(' || c == ')' || c == '{' || c == '}') {
            lemma_scan_word(s, p, Seq::empty());
            assert(!word_break_char(s[p as int]));
        }
    }
}

/// The token stream of the whole input from `p`: the tokens in order,
/// ending with `Eof`, or the first lexical error.
pub open spec fn spec_tokens_from(s: Seq<char>, p: nat) -> Result<Seq<TokView>, crate::ShellError>
    decreases s.len() - p,
    when p <= s.len()
{
    let (r, q) = spec_next_token(s, p);
    match r {
        Err(e) => Err(e),
        Ok(t) => if t == TokView::Eof {
            Ok(seq![TokView::Eof])
        } else {
            proof {
                lemma_spec_next_token(s, p);
            }
            match spec_tokens_from(s, q) {
                Err(e) => Err(e),
                Ok(rest) => Ok(seq![t] + rest),
            }
        },
    }
}

/// The token stream of the whole input.
pub open spec fn spec_tokens(s: Seq<char>) -> Result<Seq<TokView>, crate::ShellError> {
    spec_tokens_from(s, 0)
}

/// The views of a sequence of tokens, element by element.
pub open spec fn token_views(ts: Seq<Token>) -> Seq<TokView> {
    Seq::new(ts.len(), |i: int| ts[i]@)
}

pub proof fn lemma_token_views_push(ts: Seq<Token>, t: Token)
    ensures
        token_views(ts.push(t)) == token_views(ts).push(t@),
{
    assert(token_views(ts.push(t)) =~= token_views(ts).push(t@));
}

pub proof fn lemma_double_quoted_view(v: &Vec<Token>)
    ensures
        (Token::DoubleQuoted(*v))@ == TokView::DoubleQuoted(token_views(v@)),
{
    let inner = (Token::DoubleQuoted(*v))@->DoubleQuoted_0;
    assert(inner =~= token_views(v@));
}

/// The characters of a string, in order.
pub(crate) fn str_chars(s: &str) -> (r: Vec<char>)
    ensures
        r@ == s@,
{
    let n = s.unicode_len();
    let mut out: Vec<char> = Vec::new();
    let mut i: usize = 0;
    while i < n
        invariant
            i <= n,
            n == s@.len(),
            out@ == s@.subrange(0, i as int),
        decreases n - i,
    {
        out.push(s.get_char(i));
        proof {
            assert(out@ =~= s@.subrange(0, i + 1));
        }
        i = i + 1;
    }
    proof {
        assert(s@.subrange(0, n as int) =~= s@);
    }
    out
}

/// Relies on String: FromIterator<char>: collecting characters builds the
/// string with exactly those characters in order.
#[verifier::external_body]
pub(crate) fn chars_to_string(v: &Vec<char>) -> (r: String)
    ensures
        r@ == v@,
{
    v.iter().collect()
}

fn is_blank_char(c: char) -> (r: bool)
    ensures
        r == blank_char(c),
{
    c == ' ' || c == '\t'
}

fn is_operator_char(c: char) -> (r: bool)
    ensures
        r == operator_char(c),
{
    c == '|' || c == '&' || c == ';' || c == '<' || c == '>' || c == '(' || c == ')'
        || c == '{' || c == '}' || c == '"' || c == '\'' || c == '$'
}

fn is_word_break_char(c: char) -> (r: bool)
    ensures
        r == word_break_char(c),
{
    is_blank_char(c) || c == '\n' || is_operator_char(c)
}

fn is_name_char(c: char) -> (r: bool)
    ensures
        r == name_char(c),
{
    ('a' <= c && c <= 'z') || ('A' <= c && c <= 'Z') || ('0' <= c && c <= '9') || c == '_'
}

/// The lexical analyzer: a cursor over the input characters. It is stateless
/// except for that cursor, and never resolves variables or aliases itself.
pub struct Lexer {
    input: Vec<char>,
    pos: usize,
}

impl Lexer {
    /// The cursor never runs past the end of the input.
    pub closed spec fn wf(&self) -> bool {
        self.pos <= self.input.len()
    }

    /// The input characters being scanned.
    pub closed spec fn chars(&self) -> Seq<char> {
        self.input@
    }

    /// The current cursor position.
    pub closed spec fn position(&self) -> nat {
        self.pos as nat
    }

    pub fn new(input: &str) -> (r: Lexer)
        ensures
            r.wf(),
            r.chars() == input@,
            r.position() == 0,
    {
        Lexer { input: str_chars(input), pos: 0 }
    }

    /// Returns the next token, advancing the cursor past it; past the end of
    /// the input it returns `Eof` forever. An unterminated single or double
    /// quote is an `InvalidInput` error.
    pub fn next_token(&mut self) -> (r: Result<Token, crate::ShellError>)
        requires
            old(self).wf(),
        ensures
            final(self).wf(),
            final(self).chars() == old(self).chars(),
            final(self).position() <= final(self).chars().len(),
            ({
                let (sr, sq) = spec_next_token(old(self).chars(), old(self).position());
                &&& final(self).position() == sq
                &&& match (r, sr) {
                    (Ok(t), Ok(st)) => t@ == st,
                    (Err(e), Err(se)) => e == se,
                    _ => false,
                }
            }),
    {
        self.skip_whitespace();
        if self.pos >= self.input.len() {
            return Ok(Token::Eof);
        }
        let c = self.input[self.pos];
        if c == '\n' {
            self.pos = self.pos + 1;
            Ok(Token::Newline)
        } else if c == ';' {
            self.pos = self.pos + 1;
            Ok(Token::Semicolon)
        } else if c == '&' {
            self.pos = self.pos + 1;
            if self.pos < self.input.len() && self.input[self.pos] == '&' {
                self.pos = self.pos + 1;
                Ok(Token::AndIf)
            } else {
                Ok(Token::Background)
            }
        } else if c == '|' {
            self.pos = self.pos + 1;
            if self.pos < self.input.len() && self.input[self.pos] == '|' {
                self.pos = self.pos + 1;
                Ok(Token::OrIf)
            } else {
                Ok(Token::Pipe)
            }
        } else if c == '<' {
            self.pos = self.pos + 1;
            if self.pos < self.input.len() && self.input[self.pos] == '<' {
                self.pos = self.pos + 1;
                Ok(Token::Heredoc)
            } else if self.pos < self.input.len() && self.input[self.pos] == '>' {
                self.pos = self.pos + 1;
                Ok(Token::RedirectInOut)
            } else {
                Ok(Token::RedirectIn)
            }
        } else if c == '>' {
            self.pos = self.pos + 1;
            if self.pos < self.input.len() && self.input[self.pos] == '>' {
                self.pos = self.pos + 1;
                Ok(Token::RedirectAppend)
            } else {
                Ok(Token::RedirectOut)
            }
        } else if c == '(' {
            self.pos = self.pos + 1;
            Ok(Token::LParen)
        } else if c == ')' {
            self.pos = self.pos + 1;
            Ok(Token::RParen)
        } else if c == '{' {
            self.pos = self.pos + 1;
            Ok(Token::LBrace)
        } else if c == '}' {
            self.pos = self.pos + 1;
            Ok(Token::RBrace)
        } else if c == '\'' {
            self.pos = self.pos + 1;
            match self.read_single_quoted() {
                Ok(text) => Ok(Token::SingleQuoted(text)),
                Err(e) => Err(e),
            }
        } else if c == '"' {
            self.pos = self.pos + 1;
            match self.read_double_quoted() {
                Ok(toks) => {
                    proof {
                        lemma_double_quoted_view(&toks);
                    }
                    Ok(Token::DoubleQuoted(toks))
                },
                Err(e) => Err(e),
            }
        } else if c == '$' {
            self.pos = self.pos + 1;
            Ok(self.read_variable())
        } else {
            Ok(Token::Word(self.read_word()))
        }
    }

    fn peek(&self) -> (r: Option<char>)
        requires
            self.wf(),
        ensures
            r == (if self.position() < self.chars().len() {
                Some(self.chars()[self.position() as int])
            } else {
                None::<char>
            }),
    {
        if self.pos < self.input.len() {
            Some(self.input[self.pos])
        } else {
            None
        }
    }

    fn next(&mut self) -> (r: Option<char>)
        requires
            old(self).wf(),
        ensures
            final(self).wf(),
            final(self).chars() == old(self).chars(),
            r == (if old(self).position() < old(self).chars().len() {
                Some(old(self).chars()[old(self).position() as int])
            } else {
                None::<char>
            }),
            final(self).position() == (if old(self).position() < old(self).chars().len() {
                old(self).position() + 1
            } else {
                old(self).position()
            }),
    {
        if self.pos < self.input.len() {
            let c = self.input[self.pos];
            self.pos = self.pos + 1;
            Some(c)
        } else {
            None
        }
    }

    fn skip_whitespace(&mut self)
        requires
            old(self).wf(),
        ensures
            final(self).wf(),
            final(self).chars() == old(self).chars(),
            final(self).position() == skip_blanks(old(self).chars(), old(self).position()),
    {
        while self.pos < self.input.len() && is_blank_char(self.input[self.pos])
            invariant
                self.wf(),
                self.chars() == old(self).chars(),
                skip_blanks(self.chars(), self.position()) == skip_blanks(
                    old(self).chars(),
                    old(self).position(),
                ),
            decreases self.input.len() - self.pos,
        {
            self.pos = self.pos + 1;
        }
    }

    fn read_word(&mut self) -> (r: String)
        requires
            old(self).wf(),
        ensures
            final(self).wf(),
            final(self).chars() == old(self).chars(),
            (r@, final(self).position()) == scan_word(old(self).chars(), old(self).position(), Seq::<
                char,
            >::empty()),
    {
        let mut buf: Vec<char> = Vec::new();
        while self.pos < self.input.len() && !is_word_break_char(self.input[self.pos])
            invariant
                self.wf(),
                self.chars() == old(self).chars(),
                scan_word(self.chars(), self.position(), buf@) == scan_word(
                    old(self).chars(),
                    old(self).position(),
                    Seq::<char>::empty(),
                ),
            decreases self.input.len() - self.pos,
        {
            let c = self.input[self.pos];
            if c == '\\' {
                self.pos = self.pos + 1;
                if self.pos < self.input.len() {
                    buf.push(self.input[self.pos]);
                    self.pos = self.pos + 1;
                }
            } else {
                buf.push(c);
                self.pos = self.pos + 1;
            }
        }
        chars_to_string(&buf)
    }

    fn read_single_quoted(&mut self) -> (r: Result<String, crate::ShellError>)
        requires
            old(self).wf(),
        ensures
            final(self).wf(),
            final(self).chars() == old(self).chars(),
            match scan_single(old(self).chars(), old(self).position(), Seq::<char>::empty()) {
                Some((text, q)) => r matches Ok(w) && w@ == text && final(self).position() == q,
                None => r == Err::<String, crate::ShellError>(crate::ShellError::InvalidInput)
                    && final(self).position() == final(self).chars().len(),
            },
    {
        let mut buf: Vec<char> = Vec::new();
        loop
            invariant
                self.wf(),
                self.chars() == old(self).chars(),
                scan_single(self.chars(), self.position(), buf@) == scan_single(
                    old(self).chars(),
                    old(self).position(),
                    Seq::<char>::empty(),
                ),
            decreases self.input.len() - self.pos,
        {
            if self.pos >= self.input.len() {
                return Err(crate::ShellError::InvalidInput);
            }
            let c = self.input[self.pos];
            self.pos = self.pos + 1;
            if c == '\'' {
                return Ok(chars_to_string(&buf));
            }
            buf.push(c);
        }
    }

    fn read_variable(&mut self) -> (r: Token)
        requires
            old(self).wf(),
        ensures
            final(self).wf(),
            final(self).chars() == old(self).chars(),
            (r@, final(self).position()) == spec_variable(old(self).chars(), old(self).position()),
    {
        if self.pos < self.input.len() && self.input[self.pos] == '{' {
            self.pos = self.pos + 1;
            let mut buf: Vec<char> = Vec::new();
            loop
                invariant
                    self.wf(),
                    self.chars() == old(self).chars(),
                    old(self).position() < old(self).chars().len(),
                    old(self).chars()[old(self).position() as int] == '{',
                    scan_braced(self.chars(), self.position(), buf@) == scan_braced(
                        old(self).chars(),
                        old(self).position() + 1,
                        Seq::<char>::empty(),
                    ),
                decreases self.input.len() - self.pos,
            {
                if self.pos >= self.input.len() {
                    return Token::VariableBraced(chars_to_string(&buf));
                }
                let c = self.input[self.pos];
                self.pos = self.pos + 1;
                if c == '}' {
                    return Token::VariableBraced(chars_to_string(&buf));
                }
                buf.push(c);
            }
        } else if self.pos < self.input.len() && self.input[self.pos] == '?' {
            self.pos = self.pos + 1;
            let mut q: Vec<char> = Vec::new();
            q.push('?');
            proof {
                assert(q@ =~= seq!['?']);
            }
            Token::Variable(chars_to_string(&q))
        } else {
            let mut buf: Vec<char> = Vec::new();
            while self.pos < self.input.len() && is_name_char(self.input[self.pos])
                invariant
                    self.wf(),
                    self.chars() == old(self).chars(),
                    !(old(self).position() < old(self).chars().len() && (old(self).chars()[old(
                        self,
                    ).position() as int] == '{' || old(self).chars()[old(self).position() as int]
                        == '?')),
                    scan_name(self.chars(), self.position(), buf@) == scan_name(
                        old(self).chars(),
                        old(self).position(),
                        Seq::<char>::empty(),
                    ),
                decreases self.input.len() - self.pos,
            {
                buf.push(self.input[self.pos]);
                self.pos = self.pos + 1;
            }
            Token::Variable(chars_to_string(&buf))
        }
    }

    fn read_double_quoted(&mut self) -> (r: Result<Vec<Token>, crate::ShellError>)
        requires
            old(self).wf(),
        ensures
            final(self).wf(),
            final(self).chars() == old(self).chars(),
            match scan_double(
                old(self).chars(),
                old(self).position(),
                Seq::<TokView>::empty(),
                Seq::<char>::empty(),
            ) {
                Some((toks, q)) => r matches Ok(v) && token_views(v@) == toks && final(self).position()
                    == q,
                None => r == Err::<Vec<Token>, crate::ShellError>(crate::ShellError::InvalidInput)
                    && final(self).position() == final(self).chars().len(),
            },
    {
        let mut toks: Vec<Token> = Vec::new();
        let mut buf: Vec<char> = Vec::new();
        proof {
            assert(token_views(toks@) =~= Seq::<TokView>::empty());
        }
        loop
            invariant
                self.wf(),
                self.chars() == old(self).chars(),
                scan_double(self.chars(), self.position(), token_views(toks@), buf@) == scan_double(
                    old(self).chars(),
                    old(self).position(),
                    Seq::<TokView>::empty(),
                    Seq::<char>::empty(),
                ),
            decreases self.input.len() - self.pos,
        {
            if self.pos >= self.input.len() {
                return Err(crate::ShellError::InvalidInput);
            }
            let c = self.input[self.pos];
            if c == '"' {
                self.pos = self.pos + 1;
                if buf.len() > 0 {
                    let w = Token::Word(chars_to_string(&buf));
                    proof {
                        lemma_token_views_push(toks@, w);
                    }
                    toks.push(w);
                }
                return Ok(toks);
            }
            if c == '$' {
                let ghost cs = self.chars();
                let ghost p_dollar = self.position();
                let ghost toks0 = token_views(toks@);
                let ghost buf0 = buf@;
                self.pos = self.pos + 1;
                if buf.len() > 0 {
                    let w = Token::Word(chars_to_string(&buf));
                    proof {
                        lemma_token_views_push(toks@, w);
                    }
                    toks.push(w);
                    buf = Vec::new();
                } else {
                    proof {
                        assert(buf0 =~= Seq::<char>::empty());
                    }
                }
                let t = self.read_variable();
                proof {
                    lemma_spec_variable(cs, (p_dollar + 1) as nat);
                    lemma_token_views_push(toks@, t);
                }
                toks.push(t);
            } else if c == '\\' {
                self.pos = self.pos + 1;
                if self.pos < self.input.len() {
                    buf.push(self.input[self.pos]);
                    self.pos = self.pos + 1;
                } else {
                    return Err(crate::ShellError::InvalidInput);
                }
            } else {
                buf.push(c);
                self.pos = self.pos + 1;
            }
        }
    }
}

/// Runs the lexer over the whole input and returns the token stream, ending
/// with `Eof`, or the first lexical error.
pub fn tokenize(input: &str) -> (r: Result<Vec<Token>, crate::ShellError>)
    ensures
        match (r, spec_tokens(input@)) {
            (Ok(v), Ok(sv)) => token_views(v@) == sv,
            (Err(e), Err(se)) => e == se,
            _ => false,
        },
{
    let mut lx = Lexer::new(input);
    let mut out: Vec<Token> = Vec::new();
    loop
        invariant
            lx.wf(),
            lx.chars() == input@,
            match spec_tokens_from(input@, lx.position()) {
                Ok(rest) => spec_tokens(input@) == Ok::<Seq<TokView>, crate::ShellError>(
                    token_views(out@) + rest,
                ),
                Err(e) => spec_tokens(input@) == Err::<Seq<TokView>, crate::ShellError>(e),
            },
        decreases input@.len() - lx.position(),
    {
        proof {
            lemma_spec_next_token(input@, lx.position());
        }
        let ghost p0 = lx.position();
        let ghost out0 = out@;
        match lx.next_token() {
            Err(e) => {
                return Err(e);
            },
            Ok(t) => {
                let is_eof = matches!(t, Token::Eof);
                proof {
                    lemma_token_views_push(out@, t);
                }
                out.push(t);
                if is_eof {
                    proof {
                        assert(token_views(out0) + seq![TokView::Eof] =~= token_views(out@));
                    }
                    return Ok(out);
                }
                proof {
                    match spec_tokens_from(input@, lx.position()) {
                        Ok(rest) => {
                            let ghost st = spec_next_token(input@, p0).0->Ok_0;
                            assert(token_views(out0) + (seq![st] + rest) =~= token_views(out@)
                                + rest);
                        },
                        Err(_) => {},
                    }
                }
            },
        }
    }
}

/// The words of a replacement text, split on runs of spaces and tabs.
pub open spec fn spec_split_blanks(s: Seq<char>, p: nat) -> Seq<Seq<char>>
    decreases s.len() - p,
    when p <= s.len()
{
    let q = skip_blanks(s, p);
    proof {
        crate::token::lemma_skip_blanks(s, p);
    }
    if q >= s.len() {
        Seq::empty()
    } else {
        let w = scan_nonblank(s, q, Seq::empty());
        proof {
            lemma_scan_nonblank(s, q, Seq::empty());
        }
        if q < w.1 {
            seq![w.0] + spec_split_blanks(s, w.1)
        } else {
            Seq::empty()
        }
    }
}

/// The non-blank run from `p`, appended to `acc`, with its end position.
pub open spec fn scan_nonblank(s: Seq<char>, p: nat, acc: Seq<char>) -> (Seq<char>, nat)
    decreases s.len() - p,
{
    if p < s.len() && !blank_char(s[p as int]) {
        scan_nonblank(s, (p + 1) as nat, acc.push(s[p as int]))
    } else {
        (acc, p)
    }
}

pub proof fn lemma_scan_nonblank(s: Seq<char>, p: nat, acc: Seq<char>)
    requires
        p <= s.len(),
    ensures
        p <= scan_nonblank(s, p, acc).1 <= s.len(),
        p < s.len() && !blank_char(s[p as int]) ==> p < scan_nonblank(s, p, acc).1,
    decreases s.len() - p,
{
    if p < s.len() && !blank_char(s[p as int]) {
        lemma_scan_nonblank(s, (p + 1) as nat, acc.push(s[p as int]));
    }
}

/// Splits text into its blank-separated words.
pub(crate) fn split_blank_words(text: &str) -> (r: Vec<String>)
    ensures
        crate::shell::str_views(r@) == spec_split_blanks(text@, 0),
{
    let chars = str_chars(text);
    let n = chars.len();
    let mut out: Vec<String> = Vec::new();
    let mut p: usize = 0;
    proof {
        assert(crate::shell::str_views(out@) =~= Seq::<Seq<char>>::empty());
    }
    loop
        invariant
            p <= n,
            n == chars@.len(),
            chars@ == text@,
            crate::shell::str_views(out@) + spec_split_blanks(text@, p as nat) == spec_split_blanks(text@, 0),
        decreases n - p,
    {
        let ghost p0 = p as nat;
        while p < n && (chars[p] == ' ' || chars[p] == '\t')
            invariant
                p0 <= p as nat,
                p <= n,
                n == chars@.len(),
                skip_blanks(chars@, p as nat) == skip_blanks(
                    chars@,
                    p0,
                ),
            decreases n - p,
        {
            p = p + 1;
        }
        if p >= n {
            proof {
                assert(crate::shell::str_views(out@) + Seq::<Seq<char>>::empty() =~= crate::shell::str_views(out@));
            }
            return out;
        }
        let ghost q0 = p as nat;
        let mut word: Vec<char> = Vec::new();
        while p < n && !(chars[p] == ' ' || chars[p] == '\t')
            invariant
                q0 <= p as nat,
                p <= n,
                n == chars@.len(),
                scan_nonblank(chars@, p as nat, word@) == scan_nonblank(chars@, q0, Seq::empty()),
            decreases n - p,
        {
            word.push(chars[p]);
            p = p + 1;
        }
        let sw = chars_to_string(&word);
        proof {
            assert(scan_nonblank(chars@, p as nat, word@) == (word@, p as nat));
            lemma_scan_nonblank(chars@, q0, Seq::empty());
            assert(q0 < p as nat);
            assert(crate::shell::str_views(out@.push(sw)) =~= crate::shell::str_views(out@).push(sw@));
            assert((crate::shell::str_views(out@).push(sw@)) + spec_split_blanks(text@, p as nat) =~= crate::shell::str_views(
                out@,
            ) + (seq![sw@] + spec_split_blanks(text@, p as nat)));
        }
        out.push(sw);
    }
}

/// An element-by-element copy of a string list.
pub(crate) fn clone_strings(v: &Vec<String>) -> (r: Vec<String>)
    ensures
        r@.len() == v@.len(),
        forall|k: int| 0 <= k < v@.len() ==> (#[trigger] r@[k])@ == v@[k]@,
{
    let mut out: Vec<String> = Vec::new();
    let n = v.len();
    let mut i: usize = 0;
    while i < n
        invariant
            i <= n,
            n == v@.len(),
            out@.len() == i,
            forall|k: int| 0 <= k < i ==> (#[trigger] out@[k])@ == v@[k]@,
        decreases n - i,
    {
        out.push(vstd::std_specs::vec::vec_index(v, i).clone());
        i = i + 1;
    }
    out
}


/// A plain word character: one that neither separates, terminates,
/// escapes, nor opens an operator or quote.
pub open spec fn plain_char(c: char) -> bool {
    !word_break_char(c) && c != '\\'
}

/// Input containing only words: every character is a plain word character
/// or a blank.
pub open spec fn words_only(s: Seq<char>) -> bool {
    forall|i: int| 0 <= i < s.len() ==> plain_char(#[trigger] s[i]) || blank_char(s[i])
}

/// A non-empty word of plain characters.
pub open spec fn plain_word(w: Seq<char>) -> bool {
    w.len() > 0 && forall|j: int| 0 <= j < w.len() ==> plain_char(#[trigger] w[j])
}

/// A list of non-empty plain words.
pub open spec fn plain_words(ws: Seq<Seq<char>>) -> bool {
    forall|i: int| 0 <= i < ws.len() ==> plain_word(#[trigger] ws[i])
}

/// The token stream that a word list denotes: one `Word` per word, then `Eof`.
pub open spec fn word_tokens(ws: Seq<Seq<char>>) -> Seq<TokView> {
    Seq::new(ws.len(), |i: int| TokView::Word(ws[i])).push(TokView::Eof)
}

/// The words rejoined with single spaces.
pub open spec fn join_words(ws: Seq<Seq<char>>) -> Seq<char>
    decreases ws.len(),
{
    if ws.len() == 0 {
        Seq::empty()
    } else if ws.len() == 1 {
        ws[0]
    } else {
        ws[0] + seq![' '] + join_words(ws.drop_first())
    }
}

proof fn lemma_scan_nonblank_chars(s: Seq<char>, p: nat, acc: Seq<char>)
    requires
        p <= s.len(),
    ensures
        scan_nonblank(s, p, acc).0 == acc + s.subrange(p as int, scan_nonblank(s, p, acc).1 as int),
        forall|i: int|
            p <= i < scan_nonblank(s, p, acc).1 ==> !blank_char(#[trigger] s[i]),
    decreases s.len() - p,
{
    lemma_scan_nonblank(s, p, acc);
    if p < s.len() && !blank_char(s[p as int]) {
        lemma_scan_nonblank_chars(s, (p + 1) as nat, acc.push(s[p as int]));
        let r = scan_nonblank(s, p, acc).1;
        assert(acc.push(s[p as int]) + s.subrange(p + 1 as int, r as int) =~= acc + s.subrange(
            p as int,
            r as int,
        ));
    } else {
        assert(acc + s.subrange(p as int, p as int) =~= acc);
    }
}

proof fn lemma_scan_word_plain(s: Seq<char>, p: nat, acc: Seq<char>)
    requires
        words_only(s),
        p <= s.len(),
    ensures
        scan_word(s, p, acc) == scan_nonblank(s, p, acc),
    decreases s.len() - p,
{
    if p < s.len() {
        if word_break_char(s[p as int]) {
        } else {
            assert(s[p as int] != '\\');
            lemma_scan_word_plain(s, (p + 1) as nat, acc.push(s[p as int]));
        }
    }
}

proof fn lemma_words_lex(s: Seq<char>, p: nat)
    requires
        words_only(s),
        p <= s.len(),
    ensures
        spec_tokens_from(s, p) == Ok::<Seq<TokView>, crate::ShellError>(
            word_tokens(spec_split_blanks(s, p)),
        ),
    decreases s.len() - p,
{
    lemma_skip_blanks(s, p);
    let q = skip_blanks(s, p);
    if q >= s.len() {
        assert(spec_split_blanks(s, p) =~= Seq::<Seq<char>>::empty());
        assert(word_tokens(Seq::empty()) =~= seq![TokView::Eof]);
    } else {
        assert(plain_char(s[q as int]));
        lemma_scan_word_plain(s, q, Seq::empty());
        lemma_scan_nonblank(s, q, Seq::empty());
        let w = scan_nonblank(s, q, Seq::empty());
        assert(spec_next_token(s, p) == (
            Ok::<TokView, crate::ShellError>(TokView::Word(w.0)),
            w.1,
        ));
        lemma_words_lex(s, w.1);
        let rest = spec_split_blanks(s, w.1);
        assert(spec_split_blanks(s, p) == seq![w.0] + rest);
        assert(seq![TokView::Word(w.0)] + word_tokens(rest) =~= word_tokens(seq![w.0] + rest));
    }
}

proof fn lemma_split_good(s: Seq<char>, p: nat)
    requires
        words_only(s),
        p <= s.len(),
    ensures
        plain_words(spec_split_blanks(s, p)),
    decreases s.len() - p,
{
    lemma_skip_blanks(s, p);
    let q = skip_blanks(s, p);
    if q >= s.len() {
    } else {
        lemma_scan_nonblank(s, q, Seq::empty());
        lemma_scan_nonblank_chars(s, q, Seq::empty());
        let w = scan_nonblank(s, q, Seq::empty());
        assert(w.0 =~= Seq::<char>::empty() + s.subrange(q as int, w.1 as int));
        assert(plain_word(w.0)) by {
            assert(w.0.len() > 0);
            assert forall|j: int| 0 <= j < w.0.len() implies plain_char(#[trigger] w.0[j]) by {
                assert(w.0[j] == s[q + j]);
                assert(!blank_char(s[q + j]));
            }
        }
        lemma_split_good(s, w.1);
        let rest = spec_split_blanks(s, w.1);
        assert forall|i: int|
            0 <= i < spec_split_blanks(s, p).len() implies plain_word(
            #[trigger] spec_split_blanks(s, p)[i],
        ) by {
            if i == 0 {
            } else {
                assert(spec_split_blanks(s, p)[i] == rest[i - 1]);
            }
        }
    }
}

proof fn lemma_skip_blanks_shift(a: Seq<char>, b: Seq<char>, k: nat)
    requires
        k <= b.len(),
    ensures
        skip_blanks(a + b, (a.len() + k) as nat) == a.len() + skip_blanks(b, k),
    decreases b.len() - k,
{
    if k < b.len() && blank_char(b[k as int]) {
        assert((a + b)[(a.len() + k) as int] == b[k as int]);
        lemma_skip_blanks_shift(a, b, (k + 1) as nat);
    } else {
        if a.len() + k < (a + b).len() {
            assert((a + b)[(a.len() + k) as int] == b[k as int]);
        }
    }
}

proof fn lemma_scan_nonblank_shift(a: Seq<char>, b: Seq<char>, k: nat, acc: Seq<char>)
    requires
        k <= b.len(),
    ensures
        scan_nonblank(a + b, (a.len() + k) as nat, acc) == (
            scan_nonblank(b, k, acc).0,
            (a.len() + scan_nonblank(b, k, acc).1) as nat,
        ),
    decreases b.len() - k,
{
    if k < b.len() && !blank_char(b[k as int]) {
        assert((a + b)[(a.len() + k) as int] == b[k as int]);
        lemma_scan_nonblank_shift(a, b, (k + 1) as nat, acc.push(b[k as int]));
    } else {
        if a.len() + k < (a + b).len() {
            assert((a + b)[(a.len() + k) as int] == b[k as int]);
        }
    }
}

proof fn lemma_split_shift(a: Seq<char>, b: Seq<char>, k: nat)
    requires
        k <= b.len(),
    ensures
        spec_split_blanks(a + b, (a.len() + k) as nat) == spec_split_blanks(b, k),
    decreases b.len() - k,
{
    lemma_skip_blanks_shift(a, b, k);
    lemma_skip_blanks(b, k);
    let q = skip_blanks(b, k);
    if q >= b.len() {
    } else {
        lemma_scan_nonblank_shift(a, b, q, Seq::empty());
        lemma_scan_nonblank(b, q, Seq::empty());
        let w = scan_nonblank(b, q, Seq::empty());
        if q < w.1 {
            lemma_split_shift(a, b, w.1);
        }
    }
}

proof fn lemma_split_leading_blank(s: Seq<char>, p: nat)
    requires
        p < s.len(),
        blank_char(s[p as int]),
    ensures
        spec_split_blanks(s, p) == spec_split_blanks(s, (p + 1) as nat),
{
}

proof fn lemma_split_join(ws: Seq<Seq<char>>)
    requires
        plain_words(ws),
    ensures
        words_only(join_words(ws)),
        spec_split_blanks(join_words(ws), 0) == ws,
    decreases ws.len(),
{
    if ws.len() == 0 {
        assert(spec_split_blanks(join_words(ws), 0) =~= ws);
    } else if ws.len() == 1 {
        let j = join_words(ws);
        assert(j == ws[0]);
        assert(plain_word(ws[0]));
        assert(words_only(j));
        assert(skip_blanks(j, 0) == 0);
        lemma_scan_prefix(j, 0, j.len(), Seq::empty());
        let w = scan_nonblank(j, 0, Seq::empty());
        assert(w.0 =~= Seq::<char>::empty() + j.subrange(0, j.len() as int));
        assert(w.0 =~= j);
        assert(spec_split_blanks(j, j.len()) =~= Seq::<Seq<char>>::empty());
        assert(spec_split_blanks(j, 0) =~= seq![ws[0]] + Seq::<Seq<char>>::empty());
        assert(seq![ws[0]] + Seq::<Seq<char>>::empty() =~= ws);
    } else {
        let rest = ws.drop_first();
        assert(plain_words(rest)) by {
            assert forall|i: int| 0 <= i < rest.len() implies plain_word(#[trigger] rest[i]) by {
                assert(rest[i] == ws[i + 1]);
            }
        }
        lemma_split_join(rest);
        let jr = join_words(rest);
        let w0 = ws[0];
        let j = join_words(ws);
        assert(j == w0 + seq![' '] + jr);
        assert(words_only(j)) by {
            assert forall|i: int|
                0 <= i < j.len() implies plain_char(#[trigger] j[i]) || blank_char(j[i]) by {
                if i < w0.len() {
                    assert(j[i] == w0[i]);
                } else if i == w0.len() {
                    assert(j[i] == ' ');
                } else {
                    assert(j[i] == jr[i - w0.len() - 1]);
                }
            }
        }
        assert(skip_blanks(j, 0) == 0) by {
            assert(j[0] == w0[0]);
        }
        lemma_scan_prefix(j, 0, w0.len(), Seq::empty());
        let w = scan_nonblank(j, 0, Seq::empty());
        assert(w.0 =~= Seq::<char>::empty() + j.subrange(0, w0.len() as int));
        assert(j.subrange(0, w0.len() as int) =~= w0);
        assert(w.1 == w0.len());
        assert(spec_split_blanks(j, 0) == seq![w0] + spec_split_blanks(j, w0.len()));
        assert(j[w0.len() as int] == ' ');
        lemma_split_leading_blank(j, w0.len());
        assert((w0 + seq![' ']) + jr =~= j);
        assert((w0 + seq![' ']).len() + 0 == w0.len() + 1);
        lemma_split_shift(w0 + seq![' '], jr, 0);
        assert(spec_split_blanks(j, (w0.len() + 1) as nat) == spec_split_blanks(jr, 0));
        assert(seq![w0] + rest =~= ws);
    }
}

proof fn lemma_scan_prefix(s: Seq<char>, p: nat, r: nat, acc: Seq<char>)
    requires
        p <= r <= s.len(),
        forall|i: int| p <= i < r ==> !blank_char(#[trigger] s[i]),
        r == s.len() || blank_char(s[r as int]),
    ensures
        scan_nonblank(s, p, acc) == (acc + s.subrange(p as int, r as int), r),
    decreases r - p,
{
    if p < r {
        assert(!blank_char(s[p as int]));
        lemma_scan_prefix(s, (p + 1) as nat, r, acc.push(s[p as int]));
        assert(acc.push(s[p as int]) + s.subrange(p + 1 as int, r as int) =~= acc + s.subrange(
            p as int,
            r as int,
        ));
    } else {
        assert(acc + s.subrange(p as int, p as int) =~= acc);
    }
}

/// For input containing only words, the lexer's tokens are exactly the
/// blank-separated word texts followed by `Eof`; and those texts, rejoined
/// with single spaces, lex to the same token sequence again — whitespace
/// width aside, the rejoined line reproduces the input's semantic token
/// sequence.
pub proof fn lemma_words_round_trip(s: Seq<char>)
    requires
        words_only(s),
    ensures
        spec_tokens(s) == Ok::<Seq<TokView>, crate::ShellError>(
            word_tokens(spec_split_blanks(s, 0)),
        ),
        spec_tokens(join_words(spec_split_blanks(s, 0))) == spec_tokens(s),
{
    lemma_words_lex(s, 0);
    lemma_split_good(s, 0);
    let ws = spec_split_blanks(s, 0);
    lemma_split_join(ws);
    lemma_words_lex(join_words(ws), 0);
}

} // verus!
