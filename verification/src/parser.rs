use vstd::prelude::*;
use crate::ast::{
    node_is_and_or, node_is_command, node_is_list, redirect_views, word_views, AndOrView, CaseArm,
    CmdView, ListOp, ListView, Node, PieceView, QuotedPiece, Redirect, RedirectKind, RedirectView,
    Word, WordView,
};
use vstd::string::StringExecFns;
use crate::token::{token_views, Token, TokView};
use crate::ShellError;

verus! {

/// A token that can stand as a word of a simple command: a bare word, a
/// quoted span, or a variable reference.
pub open spec fn wordish(t: TokView) -> bool {
    match t {
        TokView::Word(_) => true,
        TokView::SingleQuoted(_) => true,
        TokView::DoubleQuoted(_) => true,
        TokView::Variable(_) => true,
        TokView::VariableBraced(_) => true,
        _ => false,
    }
}

/// A token that ends a simple command.
pub open spec fn terminator(t: TokView) -> bool {
    match t {
        TokView::Eof => true,
        TokView::Pipe => true,
        TokView::Semicolon => true,
        TokView::Newline => true,
        TokView::AndIf => true,
        TokView::OrIf => true,
        _ => false,
    }
}

/// A token that introduces a redirect, with the kind it introduces.
/// The redirect model has no read-write kind, so the `<>` token maps to
/// `InputDup`, a deferred kind: the executor rejects every deferred kind
/// explicitly, which is the intended fate of `<>` as well.
pub open spec fn redirect_kind_of(t: TokView) -> Option<RedirectKind> {
    match t {
        TokView::RedirectIn => Some(RedirectKind::Input),
        TokView::RedirectOut => Some(RedirectKind::Output),
        TokView::RedirectAppend => Some(RedirectKind::Append),
        TokView::Heredoc => Some(RedirectKind::HereDoc),
        TokView::RedirectInOut => Some(RedirectKind::InputDup),
        _ => None,
    }
}

/// The piece of a double-quoted word that a token inside the quotes becomes.
pub open spec fn piece_view_of_tok(t: TokView) -> PieceView {
    match t {
        TokView::Word(s) => PieceView::Literal(s),
        TokView::Variable(s) => PieceView::Variable(s),
        TokView::VariableBraced(s) => PieceView::VariableBraced(s),
        _ => PieceView::Literal(Seq::empty()),
    }
}

/// The word that a word-like token becomes.
pub open spec fn word_view_of_tok(t: TokView) -> WordView {
    match t {
        TokView::Word(s) => WordView::Literal(s),
        TokView::SingleQuoted(s) => WordView::SingleQuoted(s),
        TokView::DoubleQuoted(ps) => WordView::DoubleQuoted(
            Seq::new(ps.len(), |i: int| piece_view_of_tok(ps[i])),
        ),
        TokView::Variable(s) => WordView::Variable(s),
        TokView::VariableBraced(s) => WordView::VariableBraced(s),
        _ => WordView::Literal(Seq::empty()),
    }
}

/// The words that open a compound construct or builtin form of their own:
/// a statement starting with one of these is not a plain simple command.
pub open spec fn keyword(s: Seq<char>) -> bool {
    ||| s == "if"@
    ||| s == "then"@
    ||| s == "elif"@
    ||| s == "else"@
    ||| s == "fi"@
    ||| s == "while"@
    ||| s == "until"@
    ||| s == "for"@
    ||| s == "do"@
    ||| s == "done"@
    ||| s == "case"@
    ||| s == "esac"@
    ||| s == "in"@
    ||| s == "function"@
    ||| s == "select"@
    ||| s == "return"@
    ||| s == "complete"@
    ||| s == "export"@
    ||| s == "[["@
}

/// A word that diverts the statement away from the plain simple-command
/// grammar: a keyword, a comment opener, or a history/negation bang.
pub open spec fn carved_word(s: Seq<char>) -> bool {
    keyword(s) || (s.len() > 0 && (s[0] == '#' || s[0] == '!'))
}

/// The exact result of reading one simple command from `tv` starting at `i`,
/// given the words and redirects read so far: the command and the position of
/// its terminator, or the parse error; `None` where the tokens leave the
/// plain simple-command grammar and no claim is made.
pub open spec fn spec_parse_simple(
    tv: Seq<TokView>,
    i: nat,
    words: Seq<WordView>,
    reds: Seq<RedirectView>,
) -> Option<Result<(CmdView, nat), ShellError>>
    decreases tv.len() - i,
{
    if i >= tv.len() || terminator(tv[i as int]) {
        if words.len() == 0 {
            Some(Err(ShellError::InvalidInput))
        } else {
            Some(
                Ok(
                    (
                        CmdView {
                            name: words[0],
                            args: words.drop_first(),
                            redirects: reds,
                        },
                        i,
                    ),
                ),
            )
        }
    } else if wordish(tv[i as int]) {
        if words.len() == 0 && (tv[i as int] matches TokView::Word(s) && carved_word(s)) {
            None
        } else {
            spec_parse_simple(tv, (i + 1) as nat, words.push(word_view_of_tok(tv[i as int])), reds)
        }
    } else {
        match redirect_kind_of(tv[i as int]) {
            Some(kind) => if i + 1 < tv.len() && wordish(tv[i + 1 as int]) {
                spec_parse_simple(
                    tv,
                    (i + 2) as nat,
                    words,
                    reds.push(RedirectView { kind, target: word_view_of_tok(tv[i + 1 as int]) }),
                )
            } else if i + 1 < tv.len() && tv[i + 1 as int] is LParen {
                None
            } else {
                Some(Err(ShellError::InvalidInput))
            },
            None => if tv[i as int] is Background {
                Some(Err(ShellError::InvalidInput))
            } else {
                None
            },
        }
    }
}

pub proof fn lemma_spec_parse_simple(
    tv: Seq<TokView>,
    i: nat,
    words: Seq<WordView>,
    reds: Seq<RedirectView>,
)
    requires
        i <= tv.len(),
    ensures
        spec_parse_simple(tv, i, words, reds) matches Some(Ok(r)) ==> i <= r.1 <= tv.len() && (
        words.len() == 0 ==> i < r.1),
    decreases tv.len() - i,
{
    if i >= tv.len() || terminator(tv[i as int]) {
    } else if wordish(tv[i as int]) {
        if !(words.len() == 0 && (tv[i as int] matches TokView::Word(s) && carved_word(s))) {
            lemma_spec_parse_simple(
                tv,
                (i + 1) as nat,
                words.push(word_view_of_tok(tv[i as int])),
                reds,
            );
        }
    } else {
        match redirect_kind_of(tv[i as int]) {
            Some(kind) => if i + 1 < tv.len() && wordish(tv[i + 1 as int]) {
                lemma_spec_parse_simple(
                    tv,
                    (i + 2) as nat,
                    words,
                    reds.push(RedirectView { kind, target: word_view_of_tok(tv[i + 1 as int]) }),
                );
            },
            None => {},
        }
    }
}

/// The exact result of reading a pipeline from `tv` starting at `i`: the
/// commands joined by `|`, and the position of the token that ends the
/// pipeline.
pub open spec fn spec_parse_pipeline(tv: Seq<TokView>, i: nat, acc: Seq<CmdView>) -> Option<
    Result<(Seq<CmdView>, nat), ShellError>,
>
    decreases tv.len() - i,
    when i <= tv.len()
{
    match spec_parse_simple(tv, i, Seq::empty(), Seq::empty()) {
        None => None,
        Some(Err(e)) => Some(Err(e)),
        Some(Ok((c, j))) => {
            proof {
                lemma_spec_parse_simple(tv, i, Seq::empty(), Seq::empty());
            }
            if j < tv.len() && tv[j as int] is Pipe {
                spec_parse_pipeline(tv, (j + 1) as nat, acc.push(c))
            } else {
                Some(Ok((acc.push(c), j)))
            }
        },
    }
}

pub proof fn lemma_spec_parse_pipeline(tv: Seq<TokView>, i: nat, acc: Seq<CmdView>)
    requires
        i <= tv.len(),
    ensures
        spec_parse_pipeline(tv, i, acc) matches Some(Ok(r)) ==> i < r.1 <= tv.len(),
    decreases tv.len() - i,
{
    match spec_parse_simple(tv, i, Seq::empty(), Seq::empty()) {
        None => {},
        Some(Err(_)) => {},
        Some(Ok((c, j))) => {
            lemma_spec_parse_simple(tv, i, Seq::empty(), Seq::empty());
            if j < tv.len() && tv[j as int] is Pipe {
                lemma_spec_parse_pipeline(tv, (j + 1) as nat, acc.push(c));
            }
        },
    }
}

/// Position after any run of statement separators (`;` and newline).
pub open spec fn skip_separators(tv: Seq<TokView>, i: nat) -> nat
    decreases tv.len() - i,
{
    if i < tv.len() && (tv[i as int] is Semicolon || tv[i as int] is Newline) {
        skip_separators(tv, (i + 1) as nat)
    } else {
        i
    }
}

pub proof fn lemma_skip_separators(tv: Seq<TokView>, i: nat)
    requires
        i <= tv.len(),
    ensures
        i <= skip_separators(tv, i) <= tv.len(),
    decreases tv.len() - i,
{
    if i < tv.len() && (tv[i as int] is Semicolon || tv[i as int] is Newline) {
        lemma_skip_separators(tv, (i + 1) as nat);
    }
}

/// The statement that a parsed pipeline becomes: a single command stands
/// bare, several stages make a pipeline.
pub open spec fn and_or_of(cs: Seq<CmdView>) -> AndOrView {
    if cs.len() == 1 {
        AndOrView::Single(cs[0])
    } else {
        AndOrView::Pipe(cs)
    }
}

/// The exact result of reading a statement list from `tv` starting at `i`
/// (which must stand at a statement start), given the statements and
/// operators read so far.
pub open spec fn spec_parse_list_rec(
    tv: Seq<TokView>,
    i: nat,
    stmts: Seq<AndOrView>,
    ops: Seq<ListOp>,
) -> Option<Result<ListView, ShellError>>
    decreases tv.len() - i, 1int,
    when i <= tv.len()
{
    match spec_parse_pipeline(tv, i, Seq::empty()) {
        None => None,
        Some(Err(e)) => Some(Err(e)),
        Some(Ok((cs, j))) => {
            proof {
                lemma_spec_parse_pipeline(tv, i, Seq::empty());
                lemma_spec_parse_simple(tv, i, Seq::empty(), Seq::empty());
            }
            if i < j <= tv.len() {
                spec_list_tail(tv, j, stmts.push(and_or_of(cs)), ops)
            } else {
                None
            }
        },
    }
}

/// The rest of a statement list, standing just after a parsed statement
/// whose terminator is at `j`: the list ends at `Eof`, `&&`/`||` record an
/// operator and require another statement, and separators either end the
/// list or record a sequential operator before the next statement.
pub open spec fn spec_list_tail(
    tv: Seq<TokView>,
    j: nat,
    stmts: Seq<AndOrView>,
    ops: Seq<ListOp>,
) -> Option<Result<ListView, ShellError>>
    decreases tv.len() - j, 0int,
    when j <= tv.len()
{
    if j >= tv.len() || tv[j as int] is Eof {
        Some(Ok(ListView { statements: stmts, operators: ops }))
    } else if tv[j as int] is AndIf {
        spec_parse_list_rec(tv, (j + 1) as nat, stmts, ops.push(ListOp::And))
    } else if tv[j as int] is OrIf {
        spec_parse_list_rec(tv, (j + 1) as nat, stmts, ops.push(ListOp::Or))
    } else if tv[j as int] is Semicolon || tv[j as int] is Newline {
        let k = skip_separators(tv, (j + 1) as nat);
        proof {
            lemma_skip_separators(tv, (j + 1) as nat);
        }
        if k >= tv.len() || tv[k as int] is Eof {
            Some(Ok(ListView { statements: stmts, operators: ops }))
        } else if j < k {
            spec_parse_list_rec(tv, k, stmts, ops.push(ListOp::Sequential))
        } else {
            None
        }
    } else {
        None
    }
}

/// The exact result of parsing a whole token stream as a statement list,
/// where the stream stays inside the plain simple-command grammar; `None`
/// where it leaves it and no claim is made. An empty stream (separators
/// only) is the empty list.
pub open spec fn spec_parse_list(tv: Seq<TokView>) -> Option<Result<ListView, ShellError>> {
    if tv.len() == 0 {
        None
    } else {
        let i = skip_separators(tv, 0);
        if i >= tv.len() || tv[i as int] is Eof {
            Some(Ok(ListView { statements: Seq::empty(), operators: Seq::empty() }))
        } else {
            spec_parse_list_rec(tv, i, Seq::empty(), Seq::empty())
        }
    }
}

/// The words that a run of word-like tokens from `i` denotes, with the
/// position of the first token that is not one.
pub open spec fn spec_collect_words(tv: Seq<TokView>, i: nat) -> (Seq<WordView>, nat)
    decreases tv.len() - i,
    when i <= tv.len()
{
    if i >= tv.len() || !wordish(tv[i as int]) {
        (Seq::empty(), i)
    } else {
        let rest = spec_collect_words(tv, (i + 1) as nat);
        (seq![word_view_of_tok(tv[i as int])] + rest.0, rest.1)
    }
}

/// The node the single-assignment `export` form yields for argument text
/// `w`: split at the first `=` into the name and a literal value node, or a
/// bare name when no `=` occurs.
pub open spec fn export_node_for(n: Node, w: Seq<char>) -> bool {
    let k = crate::shell::find_char(w, 0, '=');
    if k >= w.len() {
        n matches Node::Export { name, value: Option::None } && name@ == w
    } else {
        n matches Node::Export { name, value: Option::Some(v) } && name@ == w.take(k as int) && (
        (*v) matches Node::StringLiteral(t) && t@ == w.skip((k + 1) as int))
    }
}

pub(crate) fn str_eq(a: &str, b: &str) -> (r: bool)
    ensures
        r == (a@ == b@),
{
    let sa = String::from_str(a);
    let sb = String::from_str(b);
    sa == sb
}

/// An owned copy of a borrowed string.
pub(crate) fn copy_str(s: &str) -> (r: String)
    ensures
        r@ == s@,
{
    String::from_str(s)
}

/// The word that a word-like token becomes, with the strings copied out;
/// `None` for a token that cannot stand as a word.
fn to_word(t: &Token) -> (r: Option<Word>)
    ensures
        match r {
            Some(w) => wordish(t@) && w@ == word_view_of_tok(t@),
            None => !wordish(t@),
        },
{
    match t {
        Token::Word(s) => Some(Word::Literal(s.clone())),
        Token::SingleQuoted(s) => Some(Word::SingleQuoted(s.clone())),
        Token::Variable(s) => Some(Word::Variable(s.clone())),
        Token::VariableBraced(s) => Some(Word::VariableBraced(s.clone())),
        Token::DoubleQuoted(ts) => {
            let mut pieces: Vec<QuotedPiece> = Vec::new();
            let mut i: usize = 0;
            while i < ts.len()
                invariant
                    i <= ts@.len(),
                    pieces@.len() == i,
                    forall|k: int| 0 <= k < i ==> pieces@[k]@ == piece_view_of_tok(ts@[k]@),
                decreases ts@.len() - i,
            {
                let p = match vstd::std_specs::vec::vec_index(ts, i) {
                    Token::Word(s) => QuotedPiece::Literal(s.clone()),
                    Token::Variable(s) => QuotedPiece::Variable(s.clone()),
                    Token::VariableBraced(s) => QuotedPiece::VariableBraced(s.clone()),
                    _ => QuotedPiece::Literal(String::new()),
                };
                pieces.push(p);
                i = i + 1;
            }
            let w = Word::DoubleQuoted(pieces);
            proof {
                let inner = t@->DoubleQuoted_0;
                let target = Seq::new(inner.len(), |k: int| piece_view_of_tok(inner[k]));
                assert(w@->DoubleQuoted_0 =~= target);
            }
            Some(w)
        },
        _ => None,
    }
}

/// The redirect kind that a redirect-operator token introduces.
fn to_redirect_kind(t: &Token) -> (r: Option<RedirectKind>)
    ensures
        r == redirect_kind_of(t@),
{
    match t {
        Token::RedirectIn => Some(RedirectKind::Input),
        Token::RedirectOut => Some(RedirectKind::Output),
        Token::RedirectAppend => Some(RedirectKind::Append),
        Token::Heredoc => Some(RedirectKind::HereDoc),
        Token::RedirectInOut => Some(RedirectKind::InputDup),
        _ => None,
    }
}

/// The recursive-descent parser: a cursor over the token stream produced by
/// the lexer, building one top-level node on demand.
pub struct Parser {
    toks: Vec<Token>,
    pos: usize,
}

impl Parser {
    /// The cursor never runs past the end of the token stream.
    pub closed spec fn wf(&self) -> bool {
        self.pos <= self.toks@.len()
    }

    /// The views of the tokens being parsed.
    pub closed spec fn views(&self) -> Seq<TokView> {
        token_views(self.toks@)
    }

    /// The current cursor position.
    pub closed spec fn position(&self) -> nat {
        self.pos as nat
    }

    pub fn new(toks: Vec<Token>) -> (r: Parser)
        ensures
            r.wf(),
            r.views() == token_views(toks@),
            r.position() == 0,
    {
        Parser { toks, pos: 0 }
    }

    /// Reads one simple command: words accumulate into name and arguments,
    /// redirect operators take their following word into the redirect list,
    /// and the command ends at a terminator, which is not consumed.
    fn parse_simple(&mut self) -> (r: Result<Node, ShellError>)
        requires
            old(self).wf(),
        ensures
            final(self).wf(),
            final(self).views() == old(self).views(),
            old(self).position() <= final(self).position(),
            r matches Ok(_) ==> old(self).position() < final(self).position(),
            match spec_parse_simple(
                old(self).views(),
                old(self).position(),
                Seq::empty(),
                Seq::empty(),
            ) {
                Some(Ok((c, j))) => r matches Ok(n) && node_is_command(n, c)
                    && final(self).position() == j,
                Some(Err(e)) => r == Err::<Node, ShellError>(e),
                None => true,
            },
    {
        let mut words: Vec<Word> = Vec::new();
        let mut reds: Vec<Redirect> = Vec::new();
        proof {
            assert(word_views(words@) =~= Seq::<WordView>::empty());
            assert(redirect_views(reds@) =~= Seq::<RedirectView>::empty());
        }
        loop
            invariant
                self.wf(),
                self.views() == old(self).views(),
                old(self).position() <= self.position(),
                words@.len() > 0 ==> old(self).position() < self.position(),
                spec_parse_simple(old(self).views(), old(self).position(), Seq::empty(), Seq::empty())
                    matches Some(res) ==> spec_parse_simple(
                    self.views(),
                    self.position(),
                    word_views(words@),
                    redirect_views(reds@),
                ) == Some(res),
            decreases self.toks@.len() - self.pos,
        {
            let ghost words0 = word_views(words@);
            let ghost reds0 = redirect_views(reds@);
            let ends_here = if self.pos >= self.toks.len() {
                true
            } else {
                matches!(
                    vstd::std_specs::vec::vec_index(&self.toks, self.pos),
                    Token::Eof | Token::Pipe | Token::Semicolon | Token::Newline | Token::AndIf
                        | Token::OrIf | Token::LParen | Token::RParen | Token::LBrace
                        | Token::RBrace
                )
            };
            if ends_here {
                if words.len() == 0 {
                    return Err(ShellError::InvalidInput);
                }
                let name = words.remove(0);
                proof {
                    assert(word_views(words@) =~= words0.drop_first());
                }
                return Ok(Node::Command { name, args: words, redirects: reds });
            }
            let t = vstd::std_specs::vec::vec_index(&self.toks, self.pos);
            match to_word(t) {
                Some(w) => {
                    proof {
                        assert(word_views(words@.push(w)) =~= words0.push(w@));
                    }
                    words.push(w);
                    self.pos = self.pos + 1;
                },
                None => {
                    match to_redirect_kind(t) {
                        Some(kind) => {
                            if self.pos + 1 < self.toks.len() {
                                let t2 = vstd::std_specs::vec::vec_index(
                                    &self.toks,
                                    self.pos + 1,
                                );
                                match to_word(t2) {
                                    Some(target) => {
                                        let rd = Redirect { kind, target };
                                        proof {
                                            assert(redirect_views(reds@.push(rd)) =~= reds0.push(
                                                rd@,
                                            ));
                                        }
                                        reds.push(rd);
                                        self.pos = self.pos + 2;
                                    },
                                    None => {
                                        return Err(ShellError::InvalidInput);
                                    },
                                }
                            } else {
                                return Err(ShellError::InvalidInput);
                            }
                        },
                        None => {
                            return Err(ShellError::InvalidInput);
                        },
                    }
                },
            }
        }
    }

    /// Reads one pipeline: simple commands chained by `|`. A single command
    /// stands bare; several stages become a `Pipeline` node.
    fn parse_and_or(&mut self) -> (r: Result<Node, ShellError>)
        requires
            old(self).wf(),
        ensures
            final(self).wf(),
            final(self).views() == old(self).views(),
            old(self).position() <= final(self).position(),
            r matches Ok(_) ==> old(self).position() < final(self).position(),
            match spec_parse_pipeline(old(self).views(), old(self).position(), Seq::empty()) {
                Some(Ok((cs, j))) => r matches Ok(n) && node_is_and_or(n, and_or_of(cs))
                    && final(self).position() == j,
                Some(Err(e)) => r == Err::<Node, ShellError>(e),
                None => true,
            },
        decreases old(self).toks@.len() - old(self).pos, 0int,
    {
        let first = match self.parse_simple() {
            Err(e) => {
                return Err(e);
            },
            Ok(n) => n,
        };
        let mut commands: Vec<Node> = Vec::new();
        let ghost c0 = (match spec_parse_simple(
            old(self).views(),
            old(self).position(),
            Seq::empty(),
            Seq::empty(),
        ) {
            Some(Ok((c, _))) => c,
            _ => arbitrary(),
        });
        let ghost mut cs: Seq<CmdView> = seq![c0];
        commands.push(first);
        loop
            invariant
                self.wf(),
                self.views() == old(self).views(),
                old(self).position() < self.position(),
                commands@.len() == cs.len(),
                cs.len() >= 1,
                spec_parse_pipeline(old(self).views(), old(self).position(), Seq::empty())
                    matches Some(res) ==> {
                    &&& spec_pipeline_tail(self.views(), self.position(), cs) == Some(res)
                    &&& forall|k: int|
                        0 <= k < cs.len() ==> node_is_command(#[trigger] commands@[k], cs[k])
                },
            decreases self.toks@.len() - self.pos,
        {
            let more = self.pos < self.toks.len() && matches!(
                vstd::std_specs::vec::vec_index(&self.toks, self.pos),
                Token::Pipe
            );
            if !more {
                if commands.len() == 1 {
                    let n = commands.remove(0);
                    return Ok(n);
                }
                return Ok(Node::Pipeline { commands });
            }
            self.pos = self.pos + 1;
            let ghost pos_seg = self.position();
            match self.parse_simple() {
                Err(e) => {
                    return Err(e);
                },
                Ok(n) => {
                    proof {
                        if let Some(_) = spec_parse_pipeline(
                            old(self).views(),
                            old(self).position(),
                            Seq::empty(),
                        ) {
                            let sp = spec_parse_simple(
                                self.views(),
                                pos_seg,
                                Seq::empty(),
                                Seq::empty(),
                            );
                            if let Some(Ok((c, _))) = sp {
                                cs = cs.push(c);
                            } else {
                                assert(false);
                            }
                        } else {
                            cs = cs.push(arbitrary());
                        }
                    }
                    commands.push(n);
                },
            }
        }
    }
}

/// The rest of a pipeline, standing at the terminator of a parsed stage:
/// a `|` there takes another stage, anything else ends the pipeline.
pub open spec fn spec_pipeline_tail(tv: Seq<TokView>, j: nat, acc: Seq<CmdView>) -> Option<
    Result<(Seq<CmdView>, nat), ShellError>,
> {
    if j < tv.len() && tv[j as int] is Pipe {
        spec_parse_pipeline(tv, (j + 1) as nat, acc)
    } else {
        Some(Ok((acc, j)))
    }
}

/// The words that end the statement list of one nesting context.
#[derive(Clone, Copy, PartialEq, Eq, Structural)]
enum BodyEnd {
    Then,
    FiElifElse,
    Fi,
    Do,
    Done,
    CaseArm,
    Paren,
    Brace,
}

/// The flat text of a token, used to rebuild comment and arithmetic spans.
fn token_text(t: &Token) -> String {
    match t {
        Token::Word(s) => s.clone(),
        Token::SingleQuoted(s) => s.clone(),
        Token::Variable(s) => s.clone(),
        Token::VariableBraced(s) => s.clone(),
        Token::DoubleQuoted(_) => String::new(),
        Token::Newline => String::from_str("\n"),
        Token::Semicolon => String::from_str(";"),
        Token::Pipe => String::from_str("|"),
        Token::AndIf => String::from_str("&&"),
        Token::OrIf => String::from_str("||"),
        Token::Background => String::from_str("&"),
        Token::RedirectIn => String::from_str("<"),
        Token::RedirectOut => String::from_str(">"),
        Token::RedirectAppend => String::from_str(">>"),
        Token::RedirectInOut => String::from_str("<>"),
        Token::Heredoc => String::from_str("<<"),
        Token::LParen => String::from_str("("),
        Token::RParen => String::from_str(")"),
        Token::LBrace => String::from_str("{"),
        Token::RBrace => String::from_str("}"),
        Token::Eof => String::new(),
    }
}

impl Parser {
    /// The current token is the given bare word.
    fn at_word(&self, lit: &str) -> (r: bool)
        requires
            self.wf(),
        ensures
            r == (self.position() < self.views().len() && (self.views()[self.position() as int]
                matches TokView::Word(s) && s == lit@)),
    {
        if self.pos < self.toks.len() {
            match vstd::std_specs::vec::vec_index(&self.toks, self.pos) {
                Token::Word(s) => str_eq(s.as_str(), lit),
                _ => false,
            }
        } else {
            false
        }
    }

    /// Consumes the current token, which the caller has already examined.
    fn advance(&mut self)
        requires
            old(self).wf(),
            old(self).position() < old(self).views().len(),
        ensures
            final(self).wf(),
            final(self).views() == old(self).views(),
            final(self).position() == old(self).position() + 1,
    {
        let n = self.toks.len();
        proof {
            assert(self.views().len() == self.toks@.len());
        }
        self.pos = self.pos + 1;
    }

    /// Consumes the given bare word, or fails with `InvalidInput`.
    fn expect_word(&mut self, lit: &str) -> (r: Result<(), ShellError>)
        requires
            old(self).wf(),
        ensures
            final(self).wf(),
            final(self).views() == old(self).views(),
            old(self).position() <= final(self).position(),
            r matches Ok(_) ==> old(self).position() < final(self).position(),
    {
        if self.at_word(lit) {
            self.advance();
            Ok(())
        } else {
            Err(ShellError::InvalidInput)
        }
    }

    /// Consumes any run of `;` and newline separators.
    fn skip_separator_run(&mut self)
        requires
            old(self).wf(),
        ensures
            final(self).wf(),
            final(self).views() == old(self).views(),
            old(self).position() <= final(self).position(),
            final(self).position() == skip_separators(old(self).views(), old(self).position()),
    {
        loop
            invariant
                self.wf(),
                self.views() == old(self).views(),
                old(self).position() <= self.position(),
                skip_separators(self.views(), self.position()) == skip_separators(
                    old(self).views(),
                    old(self).position(),
                ),
            decreases self.toks@.len() - self.pos,
        {
            if self.pos >= self.toks.len() {
                return ;
            }
            let more = matches!(
                vstd::std_specs::vec::vec_index(&self.toks, self.pos),
                Token::Semicolon | Token::Newline
            );
            if !more {
                return ;
            }
            self.pos = self.pos + 1;
        }
    }

    /// Consumes the current token as a word, or fails with `InvalidInput`.
    fn take_word(&mut self) -> (r: Result<Word, ShellError>)
        requires
            old(self).wf(),
        ensures
            final(self).wf(),
            final(self).views() == old(self).views(),
            old(self).position() <= final(self).position(),
            r matches Ok(_) ==> old(self).position() < final(self).position(),
    {
        if self.pos >= self.toks.len() {
            return Err(ShellError::InvalidInput);
        }
        match to_word(vstd::std_specs::vec::vec_index(&self.toks, self.pos)) {
            Some(w) => {
                self.advance();
                Ok(w)
            },
            None => Err(ShellError::InvalidInput),
        }
    }

    /// Consumes the current token as a bare word and returns its text,
    /// or fails with `InvalidInput`.
    fn take_word_text(&mut self) -> (r: Result<String, ShellError>)
        requires
            old(self).wf(),
        ensures
            final(self).wf(),
            final(self).views() == old(self).views(),
            old(self).position() <= final(self).position(),
            r matches Ok(_) ==> old(self).position() < final(self).position(),
    {
        if self.pos >= self.toks.len() {
            return Err(ShellError::InvalidInput);
        }
        match vstd::std_specs::vec::vec_index(&self.toks, self.pos) {
            Token::Word(s) => {
                let text = s.clone();
                self.advance();
                Ok(text)
            },
            _ => Err(ShellError::InvalidInput),
        }
    }

    /// Consumes a run of word-like tokens: exactly the words that
    /// `spec_collect_words` reads from the cursor.
    fn collect_words(&mut self) -> (r: Vec<Word>)
        requires
            old(self).wf(),
        ensures
            final(self).wf(),
            final(self).views() == old(self).views(),
            old(self).position() <= final(self).position(),
            (word_views(r@), final(self).position()) == spec_collect_words(
                old(self).views(),
                old(self).position(),
            ),
    {
        let mut out: Vec<Word> = Vec::new();
        proof {
            assert(word_views(out@) =~= Seq::<WordView>::empty());
        }
        loop
            invariant
                self.wf(),
                self.views() == old(self).views(),
                old(self).position() <= self.position(),
                spec_collect_words(old(self).views(), old(self).position()).0 == word_views(out@)
                    + spec_collect_words(self.views(), self.position()).0,
                spec_collect_words(old(self).views(), old(self).position()).1
                    == spec_collect_words(self.views(), self.position()).1,
            decreases self.toks@.len() - self.pos,
        {
            if self.pos >= self.toks.len() {
                proof {
                    assert(word_views(out@) + Seq::<WordView>::empty() =~= word_views(out@));
                }
                return out;
            }
            match to_word(vstd::std_specs::vec::vec_index(&self.toks, self.pos)) {
                Some(w) => {
                    proof {
                        assert(word_views(out@.push(w)) =~= word_views(out@).push(w@));
                        assert((word_views(out@).push(w@)) + spec_collect_words(
                            self.views(),
                            (self.position() + 1) as nat,
                        ).0 =~= word_views(out@) + (seq![w@] + spec_collect_words(
                            self.views(),
                            (self.position() + 1) as nat,
                        ).0));
                    }
                    out.push(w);
                    self.pos = self.pos + 1;
                },
                None => {
                    proof {
                        assert(word_views(out@) + Seq::<WordView>::empty() =~= word_views(out@));
                    }
                    return out;
                },
            }
        }
    }

    /// The statement list of one nesting context ends at this token.
    fn at_body_end(&self, end: BodyEnd) -> (r: bool)
        requires
            self.wf(),
    {
        if self.pos >= self.toks.len() {
            return false;
        }
        match end {
            BodyEnd::Then => self.at_word("then"),
            BodyEnd::FiElifElse => self.at_word("fi") || self.at_word("elif") || self.at_word(
                "else",
            ),
            BodyEnd::Fi => self.at_word("fi"),
            BodyEnd::Do => self.at_word("do"),
            BodyEnd::Done => self.at_word("done"),
            BodyEnd::CaseArm => {
                if self.at_word("esac") {
                    return true;
                }
                if self.pos + 1 < self.toks.len() {
                    matches!(
                        vstd::std_specs::vec::vec_index(&self.toks, self.pos),
                        Token::Semicolon
                    ) && matches!(
                        vstd::std_specs::vec::vec_index(&self.toks, self.pos + 1),
                        Token::Semicolon
                    )
                } else {
                    false
                }
            },
            BodyEnd::Paren => matches!(
                vstd::std_specs::vec::vec_index(&self.toks, self.pos),
                Token::RParen
            ),
            BodyEnd::Brace => matches!(
                vstd::std_specs::vec::vec_index(&self.toks, self.pos),
                Token::RBrace
            ),
        }
    }

    /// Reads the statement list of a nested construct, stopping (without
    /// consuming) at the token that ends the given context. Reaching the end
    /// of input first is an unterminated construct: `InvalidInput`.
    fn parse_body(&mut self, end: BodyEnd) -> (r: Result<Node, ShellError>)
        requires
            old(self).wf(),
        ensures
            final(self).wf(),
            final(self).views() == old(self).views(),
            old(self).position() <= final(self).position(),
        decreases old(self).toks@.len() - old(self).pos, 3int,
    {
        let mut statements: Vec<Node> = Vec::new();
        let mut operators: Vec<ListOp> = Vec::new();
        let mut pending: Option<ListOp> = None;
        loop
            invariant
                self.wf(),
                self.views() == old(self).views(),
                old(self).position() <= self.position(),
            decreases self.views().len() - self.position(),
        {
            let ghost p_top = self.position();
            loop
                invariant
                    self.wf(),
                    self.views() == old(self).views(),
                    old(self).position() <= self.position(),
                    p_top <= self.position(),
                decreases self.views().len() - self.position(),
            {
                if self.at_body_end(end) {
                    break ;
                }
                if self.pos < self.toks.len() && matches!(
                    vstd::std_specs::vec::vec_index(&self.toks, self.pos),
                    Token::Semicolon | Token::Newline
                ) {
                    self.advance();
                } else {
                    break ;
                }
            }
            if self.at_body_end(end) {
                if statements.len() == 1 && operators.len() == 0 {
                    let n = statements.remove(0);
                    return Ok(n);
                }
                return Ok(Node::List { statements, operators });
            }
            if self.pos >= self.toks.len() {
                return Err(ShellError::InvalidInput);
            }
            if matches!(vstd::std_specs::vec::vec_index(&self.toks, self.pos), Token::Eof) {
                return Err(ShellError::InvalidInput);
            }
            match pending {
                Some(op) => {
                    operators.push(op);
                },
                None => {},
            }
            pending = None;
            let stmt = match self.parse_statement() {
                Err(e) => {
                    return Err(e);
                },
                Ok(n) => n,
            };
            statements.push(stmt);
            if self.pos >= self.toks.len() {
                continue ;
            }
            let sep = vstd::std_specs::vec::vec_index(&self.toks, self.pos);
            if matches!(sep, Token::AndIf) {
                pending = Some(ListOp::And);
                self.advance();
            } else if matches!(sep, Token::OrIf) {
                pending = Some(ListOp::Or);
                self.advance();
            } else if matches!(sep, Token::Semicolon | Token::Newline) {
                if self.at_body_end(end) {
                    if statements.len() == 1 && operators.len() == 0 {
                        let n = statements.remove(0);
                        return Ok(n);
                    }
                    return Ok(Node::List { statements, operators });
                }
                pending = Some(ListOp::Sequential);
                self.advance();
            } else if self.at_body_end(end) {
                if statements.len() == 1 && operators.len() == 0 {
                    let n = statements.remove(0);
                    return Ok(n);
                }
                return Ok(Node::List { statements, operators });
            } else {
                return Err(ShellError::InvalidInput);
            }
        }
    }

    /// Reads an `if`/`elif`/`else`/`fi` statement, with each condition and
    /// body parsed as a nested statement list.
    fn parse_if(&mut self) -> (r: Result<Node, ShellError>)
        requires
            old(self).wf(),
            old(self).position() < old(self).views().len(),
        ensures
            final(self).wf(),
            final(self).views() == old(self).views(),
            old(self).position() <= final(self).position(),
            r matches Ok(n) ==> n is IfStatement,
            r matches Ok(_) ==> old(self).position() < final(self).position(),
        decreases old(self).toks@.len() - old(self).pos, 1int,
    {
        self.advance();
        let condition = match self.parse_body(BodyEnd::Then) {
            Err(e) => {
                return Err(e);
            },
            Ok(n) => n,
        };
        match self.expect_word("then") {
            Err(e) => {
                return Err(e);
            },
            Ok(_) => {},
        }
        let then_body = match self.parse_body(BodyEnd::FiElifElse) {
            Err(e) => {
                return Err(e);
            },
            Ok(n) => n,
        };
        let mut elif_branches: Vec<Node> = Vec::new();
        loop
            invariant
                self.wf(),
                self.views() == old(self).views(),
                old(self).position() <= self.position(),
            decreases self.toks@.len() - self.pos,
        {
            if !self.at_word("elif") {
                break ;
            }
            self.advance();
            let c = match self.parse_body(BodyEnd::Then) {
                Err(e) => {
                    return Err(e);
                },
                Ok(n) => n,
            };
            match self.expect_word("then") {
                Err(e) => {
                    return Err(e);
                },
                Ok(_) => {},
            }
            let b = match self.parse_body(BodyEnd::FiElifElse) {
                Err(e) => {
                    return Err(e);
                },
                Ok(n) => n,
            };
            elif_branches.push(
                Node::ElifBranch { condition: Box::new(c), body: Box::new(b) },
            );
        }
        let else_branch: Option<Box<Node>> = if self.at_word("else") {
            self.advance();
            let b = match self.parse_body(BodyEnd::Fi) {
                Err(e) => {
                    return Err(e);
                },
                Ok(n) => n,
            };
            Some(Box::new(Node::ElseBranch { body: Box::new(b) }))
        } else {
            None
        };
        match self.expect_word("fi") {
            Err(e) => {
                return Err(e);
            },
            Ok(_) => {},
        }
        Ok(
            Node::IfStatement {
                condition: Box::new(condition),
                then_body: Box::new(then_body),
                elif_branches,
                else_branch,
            },
        )
    }

    /// Reads a `while` or `until` loop: a condition list up to `do` and a
    /// body up to `done`.
    fn parse_cond_loop(&mut self, until: bool) -> (r: Result<Node, ShellError>)
        requires
            old(self).wf(),
            old(self).position() < old(self).views().len(),
        ensures
            final(self).wf(),
            final(self).views() == old(self).views(),
            old(self).position() <= final(self).position(),
            r matches Ok(n) ==> (until ==> n is UntilLoop) && (!until ==> n is WhileLoop),
            r matches Ok(_) ==> old(self).position() < final(self).position(),
        decreases old(self).toks@.len() - old(self).pos, 1int,
    {
        self.advance();
        let condition = match self.parse_body(BodyEnd::Do) {
            Err(e) => {
                return Err(e);
            },
            Ok(n) => n,
        };
        match self.expect_word("do") {
            Err(e) => {
                return Err(e);
            },
            Ok(_) => {},
        }
        let body = match self.parse_body(BodyEnd::Done) {
            Err(e) => {
                return Err(e);
            },
            Ok(n) => n,
        };
        match self.expect_word("done") {
            Err(e) => {
                return Err(e);
            },
            Ok(_) => {},
        }
        if until {
            Ok(Node::UntilLoop { condition: Box::new(condition), body: Box::new(body) })
        } else {
            Ok(Node::WhileLoop { condition: Box::new(condition), body: Box::new(body) })
        }
    }

    /// Reads a `for` or `select` statement: a variable, an optional `in`
    /// word list, and a `do`..`done` body.
    fn parse_iter_loop(&mut self, select: bool) -> (r: Result<Node, ShellError>)
        requires
            old(self).wf(),
            old(self).position() < old(self).views().len(),
        ensures
            final(self).wf(),
            final(self).views() == old(self).views(),
            old(self).position() <= final(self).position(),
            r matches Ok(n) ==> (select ==> n is SelectStatement) && (!select ==> n is ForLoop),
            r matches Ok(_) ==> old(self).position() < final(self).position(),
        decreases old(self).toks@.len() - old(self).pos, 1int,
    {
        self.advance();
        let var = match self.take_word_text() {
            Err(e) => {
                return Err(e);
            },
            Ok(t) => t,
        };
        let mut items: Vec<Word> = Vec::new();
        if self.at_word("in") {
            self.advance();
            items = self.collect_words();
        }
        self.skip_separator_run();
        match self.expect_word("do") {
            Err(e) => {
                return Err(e);
            },
            Ok(_) => {},
        }
        let body = match self.parse_body(BodyEnd::Done) {
            Err(e) => {
                return Err(e);
            },
            Ok(n) => n,
        };
        match self.expect_word("done") {
            Err(e) => {
                return Err(e);
            },
            Ok(_) => {},
        }
        if select {
            Ok(Node::SelectStatement { var, items, body: Box::new(body) })
        } else {
            Ok(Node::ForLoop { var, items, body: Box::new(body) })
        }
    }

    /// Reads a `case` statement: the subject word, then arms of
    /// `|`-separated patterns closed by `)`, each with a body ended by `;;`
    /// or `esac`.
    fn parse_case(&mut self) -> (r: Result<Node, ShellError>)
        requires
            old(self).wf(),
            old(self).position() < old(self).views().len(),
        ensures
            final(self).wf(),
            final(self).views() == old(self).views(),
            old(self).position() <= final(self).position(),
            r matches Ok(n) ==> n is CaseStatement,
            r matches Ok(_) ==> old(self).position() < final(self).position(),
        decreases old(self).toks@.len() - old(self).pos, 1int,
    {
        self.advance();
        let word = match self.take_word() {
            Err(e) => {
                return Err(e);
            },
            Ok(w) => w,
        };
        match self.expect_word("in") {
            Err(e) => {
                return Err(e);
            },
            Ok(_) => {},
        }
        let mut arms: Vec<CaseArm> = Vec::new();
        loop
            invariant
                self.wf(),
                self.views() == old(self).views(),
                old(self).position() <= self.position(),
            decreases self.toks@.len() - self.pos,
        {
            self.skip_separator_run();
            if self.at_word("esac") {
                self.advance();
                return Ok(Node::CaseStatement { word, arms });
            }
            if self.pos >= self.toks.len() {
                return Err(ShellError::InvalidInput);
            }
            let ghost p_arm = self.position();
            let mut patterns: Vec<Word> = Vec::new();
            let first = match self.take_word() {
                Err(e) => {
                    return Err(e);
                },
                Ok(w) => w,
            };
            patterns.push(first);
            loop
                invariant
                    self.wf(),
                    self.views() == old(self).views(),
                    old(self).position() <= self.position(),
                    p_arm < self.position(),
                decreases self.views().len() - self.position(),
            {
                if self.pos < self.toks.len() && matches!(
                    vstd::std_specs::vec::vec_index(&self.toks, self.pos),
                    Token::Pipe
                ) {
                    self.advance();
                    let w = match self.take_word() {
                        Err(e) => {
                            return Err(e);
                        },
                        Ok(w) => w,
                    };
                    patterns.push(w);
                } else {
                    break ;
                }
            }
            if self.pos >= self.toks.len() || !matches!(
                vstd::std_specs::vec::vec_index(&self.toks, self.pos),
                Token::RParen
            ) {
                return Err(ShellError::InvalidInput);
            }
            self.advance();
            let body = match self.parse_body(BodyEnd::CaseArm) {
                Err(e) => {
                    return Err(e);
                },
                Ok(n) => n,
            };
            if self.pos < self.toks.len() && self.toks.len() - self.pos > 1 && matches!(
                vstd::std_specs::vec::vec_index(&self.toks, self.pos),
                Token::Semicolon
            ) && matches!(
                vstd::std_specs::vec::vec_index(&self.toks, self.pos + 1),
                Token::Semicolon
            ) {
                self.advance();
                self.advance();
            }
            arms.push(CaseArm { patterns, body: Box::new(body) });
        }
    }

    /// Reads a function definition in either the `function name { .. }` or
    /// the `name() { .. }` form.
    fn parse_function(&mut self, keyword_form: bool) -> (r: Result<Node, ShellError>)
        requires
            old(self).wf(),
            old(self).position() < old(self).views().len(),
        ensures
            final(self).wf(),
            final(self).views() == old(self).views(),
            old(self).position() <= final(self).position(),
            r matches Ok(n) ==> n is Function,
            r matches Ok(_) ==> old(self).position() < final(self).position(),
        decreases old(self).toks@.len() - old(self).pos, 1int,
    {
        if keyword_form {
            self.advance();
        }
        let name = match self.take_word_text() {
            Err(e) => {
                return Err(e);
            },
            Ok(t) => t,
        };
        if self.pos < self.toks.len() && self.toks.len() - self.pos > 1 && matches!(
            vstd::std_specs::vec::vec_index(&self.toks, self.pos),
            Token::LParen
        ) && matches!(
            vstd::std_specs::vec::vec_index(&self.toks, self.pos + 1),
            Token::RParen
        ) {
            self.advance();
            self.advance();
        }
        self.skip_separator_run();
        if self.pos >= self.toks.len() || !matches!(
            vstd::std_specs::vec::vec_index(&self.toks, self.pos),
            Token::LBrace
        ) {
            return Err(ShellError::InvalidInput);
        }
        self.advance();
        let body = match self.parse_body(BodyEnd::Brace) {
            Err(e) => {
                return Err(e);
            },
            Ok(n) => n,
        };
        if self.pos >= self.toks.len() || !matches!(
            vstd::std_specs::vec::vec_index(&self.toks, self.pos),
            Token::RBrace
        ) {
            return Err(ShellError::InvalidInput);
        }
        self.advance();
        Ok(Node::Function { name, body: Box::new(body) })
    }

    /// Reads a parenthesized subshell, a brace group, or the body of a
    /// command or process substitution: a list closed by the given token.
    fn parse_bracketed(&mut self, end: BodyEnd) -> (r: Result<Node, ShellError>)
        requires
            old(self).wf(),
        ensures
            final(self).wf(),
            final(self).views() == old(self).views(),
            old(self).position() <= final(self).position(),
        decreases old(self).toks@.len() - old(self).pos, 4int,
    {
        let body = match self.parse_body(end) {
            Err(e) => {
                return Err(e);
            },
            Ok(n) => n,
        };
        if self.pos >= self.toks.len() {
            return Err(ShellError::InvalidInput);
        }
        let ok = match end {
            BodyEnd::Paren => matches!(
                vstd::std_specs::vec::vec_index(&self.toks, self.pos),
                Token::RParen
            ),
            _ => matches!(vstd::std_specs::vec::vec_index(&self.toks, self.pos), Token::RBrace),
        };
        if !ok {
            return Err(ShellError::InvalidInput);
        }
        self.advance();
        Ok(body)
    }

    /// Reads one statement: a compound construct where a keyword or an
    /// opening token announces one, and a plain command or pipeline
    /// otherwise.
    fn parse_statement(&mut self) -> (r: Result<Node, ShellError>)
        requires
            old(self).wf(),
        ensures
            final(self).wf(),
            final(self).views() == old(self).views(),
            old(self).position() <= final(self).position(),
            r matches Ok(_) ==> old(self).position() < final(self).position(),
            match spec_parse_pipeline(old(self).views(), old(self).position(), Seq::empty()) {
                Some(Ok((cs, j))) => r matches Ok(n) && node_is_and_or(n, and_or_of(cs))
                    && final(self).position() == j,
                Some(Err(e)) => r == Err::<Node, ShellError>(e),
                None => true,
            },
        decreases old(self).toks@.len() - old(self).pos, 2int,
    {
        if self.pos >= self.toks.len() {
            return self.parse_and_or();
        }
        let tk = vstd::std_specs::vec::vec_index(&self.toks, self.pos);
        let word_txt: Option<String> = match tk {
            Token::Word(s) => Some(s.clone()),
            _ => None,
        };
        let is_lparen = matches!(tk, Token::LParen);
        let is_lbrace = matches!(tk, Token::LBrace);
        let is_rparen = matches!(tk, Token::RParen);
        let is_rbrace = matches!(tk, Token::RBrace);
        let is_redir_in = matches!(tk, Token::RedirectIn);
        let is_empty_var = match tk {
            Token::Variable(s) => s.as_str().is_empty(),
            _ => false,
        };
        let next_lparen = self.pos + 1 < self.toks.len() && matches!(
            vstd::std_specs::vec::vec_index(&self.toks, self.pos + 1),
            Token::LParen
        );
        let next2_lparen = self.toks.len() - self.pos > 2 && matches!(
            vstd::std_specs::vec::vec_index(&self.toks, self.pos + 2),
            Token::LParen
        );
        let next2_rparen = self.toks.len() - self.pos > 2 && matches!(
            vstd::std_specs::vec::vec_index(&self.toks, self.pos + 2),
            Token::RParen
        );
        match word_txt {
            Some(w) => {
                let n_chars = w.as_str().unicode_len();
                let first: Option<char> = if n_chars > 0 {
                    Some(w.as_str().get_char(0))
                } else {
                    None
                };
                let last: Option<char> = if n_chars > 0 {
                    Some(w.as_str().get_char(n_chars - 1))
                } else {
                    None
                };
                if str_eq(w.as_str(), "if") {
                    proof {
                        lemma_unclaimed_start(old(self).views(), old(self).position());
                    }
                    self.parse_if()
                } else if str_eq(w.as_str(), "while") {
                    proof {
                        lemma_unclaimed_start(old(self).views(), old(self).position());
                    }
                    self.parse_cond_loop(false)
                } else if str_eq(w.as_str(), "until") {
                    proof {
                        lemma_unclaimed_start(old(self).views(), old(self).position());
                    }
                    self.parse_cond_loop(true)
                } else if str_eq(w.as_str(), "for") {
                    proof {
                        lemma_unclaimed_start(old(self).views(), old(self).position());
                    }
                    self.parse_iter_loop(false)
                } else if str_eq(w.as_str(), "select") {
                    proof {
                        lemma_unclaimed_start(old(self).views(), old(self).position());
                    }
                    self.parse_iter_loop(true)
                } else if str_eq(w.as_str(), "case") {
                    proof {
                        lemma_unclaimed_start(old(self).views(), old(self).position());
                    }
                    self.parse_case()
                } else if str_eq(w.as_str(), "function") {
                    proof {
                        lemma_unclaimed_start(old(self).views(), old(self).position());
                    }
                    self.parse_function(true)
                } else if str_eq(w.as_str(), "return") {
                    proof {
                        lemma_unclaimed_start(old(self).views(), old(self).position());
                    }
                    self.parse_return()
                } else if str_eq(w.as_str(), "complete") {
                    proof {
                        lemma_unclaimed_start(old(self).views(), old(self).position());
                    }
                    self.parse_complete()
                } else if str_eq(w.as_str(), "export") {
                    proof {
                        lemma_unclaimed_start(old(self).views(), old(self).position());
                    }
                    self.parse_export()
                } else if str_eq(w.as_str(), "[[") {
                    proof {
                        lemma_unclaimed_start(old(self).views(), old(self).position());
                    }
                    self.parse_extended_test()
                } else if str_eq(w.as_str(), "then") || str_eq(w.as_str(), "elif") || str_eq(
                    w.as_str(),
                    "else",
                ) || str_eq(w.as_str(), "fi") || str_eq(w.as_str(), "do") || str_eq(
                    w.as_str(),
                    "done",
                ) || str_eq(w.as_str(), "esac") || str_eq(w.as_str(), "in") {
                    proof {
                        lemma_unclaimed_start(old(self).views(), old(self).position());
                    }
                    Err(ShellError::InvalidInput)
                } else if matches!(first, Some('#')) {
                    proof {
                        lemma_unclaimed_start(old(self).views(), old(self).position());
                    }
                    self.parse_comment()
                } else if str_eq(w.as_str(), "!") {
                    proof {
                        reveal_strlit("!");
                        lemma_unclaimed_start(old(self).views(), old(self).position());
                    }
                    self.parse_negation()
                } else if matches!(first, Some('!')) {
                    proof {
                        lemma_unclaimed_start(old(self).views(), old(self).position());
                    }
                    self.advance();
                    Ok(Node::HistoryExpansion { pattern: w })
                } else if next_lparen {
                    proof {
                        lemma_word_then_lparen(old(self).views(), old(self).position());
                    }
                    if matches!(last, Some('=')) {
                        self.parse_array(w)
                    } else if next2_rparen {
                        self.parse_function(false)
                    } else {
                        Err(ShellError::InvalidInput)
                    }
                } else {
                    self.parse_and_or()
                }
            },
            None => {
                if is_empty_var && next_lparen {
                    proof {
                        lemma_word_then_lparen(old(self).views(), old(self).position());
                    }
                    if next2_lparen {
                        self.advance();
                        self.advance();
                        self.advance();
                        match self.parse_arith_text() {
                            Err(e) => Err(e),
                            Ok(expr) => Ok(Node::ArithmeticExpansion { expr }),
                        }
                    } else {
                        self.advance();
                        self.advance();
                        match self.parse_bracketed(BodyEnd::Paren) {
                            Err(e) => Err(e),
                            Ok(body) => Ok(Node::CommandSubstitution { body: Box::new(body) }),
                        }
                    }
                } else if is_lparen {
                    proof {
                        lemma_unclaimed_start(old(self).views(), old(self).position());
                    }
                    if next_lparen {
                        self.advance();
                        self.advance();
                        match self.parse_arith_text() {
                            Err(e) => Err(e),
                            Ok(expr) => Ok(Node::ArithmeticCommand { expr }),
                        }
                    } else {
                        self.advance();
                        match self.parse_bracketed(BodyEnd::Paren) {
                            Err(e) => Err(e),
                            Ok(body) => Ok(Node::Subshell { body: Box::new(body) }),
                        }
                    }
                } else if is_lbrace {
                    proof {
                        lemma_unclaimed_start(old(self).views(), old(self).position());
                    }
                    self.advance();
                    match self.parse_bracketed(BodyEnd::Brace) {
                        Err(e) => Err(e),
                        Ok(body) => Ok(Node::Group { body: Box::new(body) }),
                    }
                } else if is_rparen || is_rbrace {
                    proof {
                        lemma_unclaimed_start(old(self).views(), old(self).position());
                    }
                    Err(ShellError::InvalidInput)
                } else if is_redir_in && next_lparen {
                    proof {
                        lemma_redirect_then_lparen(old(self).views(), old(self).position());
                    }
                    self.advance();
                    self.advance();
                    match self.parse_bracketed(BodyEnd::Paren) {
                        Err(e) => Err(e),
                        Ok(body) => Ok(Node::ProcessSubstitution { body: Box::new(body) }),
                    }
                } else {
                    self.parse_and_or()
                }
            },
        }
    }

    /// Reads a `return` statement with its optional code word.
    fn parse_return(&mut self) -> (r: Result<Node, ShellError>)
        requires
            old(self).wf(),
            old(self).position() < old(self).views().len(),
        ensures
            final(self).wf(),
            final(self).views() == old(self).views(),
            old(self).position() <= final(self).position(),
            r matches Ok(_) ==> old(self).position() < final(self).position(),
        decreases old(self).toks@.len() - old(self).pos, 1int,
    {
        self.advance();
        let value: Option<String> = if self.pos < self.toks.len() && matches!(
            vstd::std_specs::vec::vec_index(&self.toks, self.pos),
            Token::Word(_)
        ) {
            match self.take_word_text() {
                Err(e) => {
                    return Err(e);
                },
                Ok(t) => Some(t),
            }
        } else {
            None
        };
        Ok(Node::Return { value })
    }

    /// Reads a `complete` statement with its raw argument words.
    fn parse_complete(&mut self) -> (r: Result<Node, ShellError>)
        requires
            old(self).wf(),
            old(self).position() < old(self).views().len(),
        ensures
            final(self).wf(),
            final(self).views() == old(self).views(),
            old(self).position() <= final(self).position(),
            r matches Ok(_) ==> old(self).position() < final(self).position(),
        decreases old(self).toks@.len() - old(self).pos, 1int,
    {
        self.advance();
        let args = self.collect_words();
        Ok(Node::Complete { args })
    }

    /// Reads an `export` statement. The single-word form becomes an
    /// `Export` node, its value split at the first `=`; any other form
    /// stays a plain command for the builtin to handle.
    fn parse_export(&mut self) -> (r: Result<Node, ShellError>)
        requires
            old(self).wf(),
            old(self).position() < old(self).views().len(),
        ensures
            final(self).wf(),
            final(self).views() == old(self).views(),
            old(self).position() <= final(self).position(),
            r matches Ok(_) ==> old(self).position() < final(self).position(),
            ({
                let tv = old(self).views();
                let p = old(self).position();
                (p + 1 < tv.len() && (p + 2 >= tv.len() || !wordish(tv[p + 2 as int]))) ==> (tv[p
                    + 1 as int] matches TokView::Word(w) ==> (r matches Ok(n) && export_node_for(
                    n,
                    w,
                ) && final(self).position() == p + 2))
            }),
        decreases old(self).toks@.len() - old(self).pos, 1int,
    {
        proof {
            let tv = self.views();
            let p = self.position();
            if p + 1 < tv.len() && (p + 2 >= tv.len() || !wordish(tv[p + 2 as int])) && wordish(
                tv[p + 1 as int],
            ) {
                assert(spec_collect_words(tv, (p + 2) as nat).0 =~= Seq::<WordView>::empty());
                assert(seq![word_view_of_tok(tv[p + 1 as int])] + Seq::<WordView>::empty()
                    =~= seq![word_view_of_tok(tv[p + 1 as int])]);
            }
        }
        self.advance();
        let mut words = self.collect_words();
        if words.len() == 1 {
            let ghost ws0 = words@;
            let w0 = words.remove(0);
            proof {
                assert(word_views(ws0)[0] == ws0[0]@);
            }
            match w0 {
                Word::Literal(text) => {
                    let (name, value) = split_assignment(&text);
                    let node = match value {
                        Some(v) => Node::Export {
                            name,
                            value: Some(Box::new(Node::StringLiteral(v))),
                        },
                        None => Node::Export { name, value: None },
                    };
                    proof {
                        assert(export_node_for(node, text@));
                    }
                    Ok(node)
                },
                other => {
                    let mut args: Vec<Word> = Vec::new();
                    args.push(other);
                    Ok(
                        Node::Command {
                            name: Word::Literal(String::from_str("export")),
                            args,
                            redirects: Vec::new(),
                        },
                    )
                },
            }
        } else {
            Ok(
                Node::Command {
                    name: Word::Literal(String::from_str("export")),
                    args: words,
                    redirects: Vec::new(),
                },
            )
        }
    }

    /// Reads a `[[ .. ]]` extended test, collecting its words.
    fn parse_extended_test(&mut self) -> (r: Result<Node, ShellError>)
        requires
            old(self).wf(),
            old(self).position() < old(self).views().len(),
        ensures
            final(self).wf(),
            final(self).views() == old(self).views(),
            old(self).position() <= final(self).position(),
            r matches Ok(_) ==> old(self).position() < final(self).position(),
        decreases old(self).toks@.len() - old(self).pos, 1int,
    {
        self.advance();
        let mut words: Vec<Word> = Vec::new();
        loop
            invariant
                self.wf(),
                self.views() == old(self).views(),
                old(self).position() < self.position(),
            decreases self.toks@.len() - self.pos,
        {
            if self.at_word("]]") {
                self.advance();
                return Ok(Node::ExtendedTest { words });
            }
            match self.take_word() {
                Err(e) => {
                    return Err(e);
                },
                Ok(w) => {
                    words.push(w);
                },
            }
        }
    }

    /// Reads a comment: everything to the end of the line, rejoined as text.
    fn parse_comment(&mut self) -> (r: Result<Node, ShellError>)
        requires
            old(self).wf(),
            old(self).position() < old(self).views().len(),
        ensures
            final(self).wf(),
            final(self).views() == old(self).views(),
            old(self).position() <= final(self).position(),
            r matches Ok(_) ==> old(self).position() < final(self).position(),
        decreases old(self).toks@.len() - old(self).pos, 1int,
    {
        let mut text = String::new();
        let mut any = false;
        loop
            invariant
                self.wf(),
                self.views() == old(self).views(),
                old(self).position() <= self.position(),
                any ==> old(self).position() < self.position(),
            decreases self.views().len() - self.position(),
        {
            if self.pos >= self.toks.len() {
                break ;
            }
            if matches!(
                vstd::std_specs::vec::vec_index(&self.toks, self.pos),
                Token::Newline | Token::Eof
            ) {
                break ;
            }
            let piece = token_text(vstd::std_specs::vec::vec_index(&self.toks, self.pos));
            text.append(piece.as_str());
            self.advance();
            any = true;
        }
        if !any {
            return Err(ShellError::InvalidInput);
        }
        Ok(Node::Comment(text))
    }

    /// Reads a `!` negation of the following pipeline.
    fn parse_negation(&mut self) -> (r: Result<Node, ShellError>)
        requires
            old(self).wf(),
            old(self).position() < old(self).views().len(),
        ensures
            final(self).wf(),
            final(self).views() == old(self).views(),
            old(self).position() <= final(self).position(),
            r matches Ok(_) ==> old(self).position() < final(self).position(),
        decreases old(self).toks@.len() - old(self).pos, 1int,
    {
        self.advance();
        match self.parse_and_or() {
            Err(e) => Err(e),
            Ok(n) => Ok(Node::Negation { node: Box::new(n) }),
        }
    }

    /// Reads an array assignment `name=(words..)`.
    fn parse_array(&mut self, raw: String) -> (r: Result<Node, ShellError>)
        requires
            old(self).wf(),
            old(self).position() < old(self).views().len(),
        ensures
            final(self).wf(),
            final(self).views() == old(self).views(),
            old(self).position() <= final(self).position(),
            r matches Ok(_) ==> old(self).position() < final(self).position(),
        decreases old(self).toks@.len() - old(self).pos, 1int,
    {
        self.advance();
        if self.pos >= self.toks.len() || !matches!(
            vstd::std_specs::vec::vec_index(&self.toks, self.pos),
            Token::LParen
        ) {
            return Err(ShellError::InvalidInput);
        }
        self.advance();
        let elements = self.collect_words();
        if self.pos >= self.toks.len() || !matches!(
            vstd::std_specs::vec::vec_index(&self.toks, self.pos),
            Token::RParen
        ) {
            return Err(ShellError::InvalidInput);
        }
        self.advance();
        let chars = crate::token::str_chars(raw.as_str());
        let n: usize = chars.len();
        let mut name_chars: Vec<char> = Vec::new();
        let mut i: usize = 0;
        while n - i > 1
            invariant
                i <= n,
                n == chars@.len(),
            decreases n - i,
        {
            name_chars.push(chars[i]);
            i = i + 1;
        }
        let name = crate::token::chars_to_string(&name_chars);
        Ok(Node::Array { name, elements })
    }

    /// Reads the raw text of an arithmetic span up to the closing `))`.
    fn parse_arith_text(&mut self) -> (r: Result<String, ShellError>)
        requires
            old(self).wf(),
        ensures
            final(self).wf(),
            final(self).views() == old(self).views(),
            old(self).position() <= final(self).position(),
    {
        let mut text = String::new();
        loop
            invariant
                self.wf(),
                self.views() == old(self).views(),
                old(self).position() <= self.position(),
            decreases self.views().len() - self.position(),
        {
            if self.pos >= self.toks.len() {
                return Err(ShellError::InvalidInput);
            }
            if matches!(vstd::std_specs::vec::vec_index(&self.toks, self.pos), Token::Eof) {
                return Err(ShellError::InvalidInput);
            }
            if self.pos + 1 < self.toks.len() && matches!(
                vstd::std_specs::vec::vec_index(&self.toks, self.pos),
                Token::RParen
            ) && matches!(
                vstd::std_specs::vec::vec_index(&self.toks, self.pos + 1),
                Token::RParen
            ) {
                self.advance();
                self.advance();
                return Ok(text);
            }
            let piece = token_text(vstd::std_specs::vec::vec_index(&self.toks, self.pos));
            text.append(piece.as_str());
            self.advance();
        }
    }
}

impl Parser {
    /// Parses the whole token stream into one top-level node: a bare
    /// command or pipeline when the stream holds a single statement, a
    /// `List` otherwise; a stream of separators only is the empty list.
    pub fn parse_program(&mut self) -> (r: Result<Node, ShellError>)
        requires
            old(self).wf(),
            old(self).position() == 0,
        ensures
            final(self).wf(),
            match spec_parse_list(old(self).views()) {
                Some(Ok(lv)) => r matches Ok(n) && node_is_list(n, lv),
                Some(Err(e)) => r == Err::<Node, ShellError>(e),
                None => true,
            },
    {
        self.skip_separator_run();
        let at_eof = self.pos >= self.toks.len() || matches!(
            vstd::std_specs::vec::vec_index(&self.toks, self.pos),
            Token::Eof
        );
        if at_eof {
            return Ok(Node::List { statements: Vec::new(), operators: Vec::new() });
        }
        let mut statements: Vec<Node> = Vec::new();
        let mut operators: Vec<ListOp> = Vec::new();
        let ghost mut stmts_g: Seq<AndOrView> = Seq::empty();
        loop
            invariant
                self.wf(),
                self.views() == old(self).views(),
                statements@.len() == stmts_g.len(),
                match spec_parse_list(old(self).views()) {
                    Some(res) => {
                        &&& self.position() <= self.views().len()
                        &&& spec_parse_list_rec(
                            self.views(),
                            self.position(),
                            stmts_g,
                            operators@,
                        ) == Some(res)
                        &&& forall|k: int|
                            0 <= k < stmts_g.len() ==> node_is_and_or(
                                #[trigger] statements@[k],
                                stmts_g[k],
                            )
                    },
                    None => true,
                },
            decreases self.views().len() - self.position(),
        {
            let ghost p_st = self.position();
            let stmt = match self.parse_statement() {
                Err(e) => {
                    return Err(e);
                },
                Ok(n) => n,
            };
            proof {
                if let Some(res) = spec_parse_list(old(self).views()) {
                    lemma_spec_parse_pipeline(self.views(), p_st, Seq::empty());
                    if let Some(Ok((cs, j))) = spec_parse_pipeline(
                        self.views(),
                        p_st,
                        Seq::empty(),
                    ) {
                        stmts_g = stmts_g.push(and_or_of(cs));
                    } else {
                        assert(false);
                    }
                } else {
                    stmts_g = stmts_g.push(arbitrary());
                }
            }
            statements.push(stmt);
            let ends = self.pos >= self.toks.len() || matches!(
                vstd::std_specs::vec::vec_index(&self.toks, self.pos),
                Token::Eof
            );
            if ends {
                if statements.len() == 1 && operators.len() == 0 {
                    let n = statements.remove(0);
                    return Ok(n);
                }
                return Ok(Node::List { statements, operators });
            }
            let sep = vstd::std_specs::vec::vec_index(&self.toks, self.pos);
            if matches!(sep, Token::AndIf) {
                operators.push(ListOp::And);
                self.advance();
            } else if matches!(sep, Token::OrIf) {
                operators.push(ListOp::Or);
                self.advance();
            } else if matches!(sep, Token::Semicolon | Token::Newline) {
                self.skip_separator_run();
                let ends2 = self.pos >= self.toks.len() || matches!(
                    vstd::std_specs::vec::vec_index(&self.toks, self.pos),
                    Token::Eof
                );
                if ends2 {
                    if statements.len() == 1 && operators.len() == 0 {
                        let n = statements.remove(0);
                        return Ok(n);
                    }
                    return Ok(Node::List { statements, operators });
                }
                operators.push(ListOp::Sequential);
            } else {
                return Err(ShellError::InvalidInput);
            }
        }
    }
}

/// Parses one line of input: the lexer turns it into tokens and the parser
/// builds the top-level node. A lexical error (an unterminated quote) or a
/// parse error surfaces as `InvalidInput` and nothing is executed.
pub fn parse_line(input: &str) -> (r: Result<Node, ShellError>)
    ensures
        crate::token::spec_tokens(input@) matches Err(e) ==> r == Err::<Node, ShellError>(e),
        crate::token::spec_tokens(input@) matches Ok(tv) ==> match spec_parse_list(tv) {
            Some(Ok(lv)) => r matches Ok(n) && node_is_list(n, lv),
            Some(Err(e)) => r == Err::<Node, ShellError>(e),
            None => true,
        },
{
    match crate::token::tokenize(input) {
        Err(e) => Err(e),
        Ok(toks) => {
            let mut p = Parser::new(toks);
            p.parse_program()
        },
    }
}

/// Splits `NAME=VALUE` text at the first `=`; text without `=` is a bare
/// name with no value.
fn split_assignment(text: &String) -> (r: (String, Option<String>))
    ensures
        ({
            let k = crate::shell::find_char(text@, 0, '=');
            if k >= text@.len() {
                r.1 is None && r.0@ == text@
            } else {
                r.0@ == text@.take(k as int) && (r.1 matches Some(v) && v@ == text@.skip(
                    (k + 1) as int,
                ))
            }
        }),
{
    let chars = crate::token::str_chars(text.as_str());
    let n: usize = chars.len();
    let mut i: usize = 0;
    while i < n && chars[i] != '='
        invariant
            i <= n,
            n == chars@.len(),
            chars@ == text@,
            crate::shell::find_char(chars@, i as nat, '=') == crate::shell::find_char(
                chars@,
                0,
                '=',
            ),
        decreases n - i,
    {
        i = i + 1;
    }
    if i >= n {
        return (text.clone(), None);
    }
    let k = i;
    let mut name_chars: Vec<char> = Vec::new();
    let mut a: usize = 0;
    while a < k
        invariant
            a <= k,
            k < n,
            n == chars@.len(),
            name_chars@ == chars@.subrange(0, a as int),
        decreases k - a,
    {
        name_chars.push(chars[a]);
        proof {
            assert(name_chars@ =~= chars@.subrange(0, a + 1));
        }
        a = a + 1;
    }
    let mut val_chars: Vec<char> = Vec::new();
    let mut b: usize = k + 1;
    proof {
        assert(val_chars@ =~= chars@.subrange((k + 1) as int, (k + 1) as int));
    }
    while b < n
        invariant
            k + 1 <= b <= n,
            k < n,
            n == chars@.len(),
            val_chars@ == chars@.subrange((k + 1) as int, b as int),
        decreases n - b,
    {
        val_chars.push(chars[b]);
        proof {
            assert(val_chars@ =~= chars@.subrange((k + 1) as int, b + 1));
        }
        b = b + 1;
    }
    proof {
        assert(chars@.subrange(0, k as int) =~= text@.take(k as int));
        assert(chars@.subrange((k + 1) as int, n as int) =~= text@.skip((k + 1) as int));
    }
    (
        crate::token::chars_to_string(&name_chars),
        Some(crate::token::chars_to_string(&val_chars)),
    )
}

/// A statement starting with a compound keyword or an opening token leaves
/// the plain simple-command grammar, so the exact claims make none there.
proof fn lemma_unclaimed_start(tv: Seq<TokView>, i: nat)
    requires
        i < tv.len(),
        ({
            ||| (tv[i as int] matches TokView::Word(s) && carved_word(s))
            ||| tv[i as int] is LParen
            ||| tv[i as int] is LBrace
            ||| tv[i as int] is RParen
            ||| tv[i as int] is RBrace
        }),
    ensures
        spec_parse_pipeline(tv, i, Seq::empty()) is None,
{
    assert(spec_parse_simple(tv, i, Seq::empty(), Seq::empty()) is None);
}

/// A word followed by `(` (a function definition, array assignment, or
/// substitution shape) leaves the plain simple-command grammar.
proof fn lemma_word_then_lparen(tv: Seq<TokView>, i: nat)
    requires
        i + 1 < tv.len(),
        wordish(tv[i as int]),
        !(tv[i as int] matches TokView::Word(s) && carved_word(s)),
        tv[i + 1 as int] is LParen,
    ensures
        spec_parse_pipeline(tv, i, Seq::empty()) is None,
{
    assert(spec_parse_simple(
        tv,
        (i + 1) as nat,
        Seq::<WordView>::empty().push(word_view_of_tok(tv[i as int])),
        Seq::empty(),
    ) is None);
    assert(spec_parse_simple(tv, i, Seq::empty(), Seq::empty()) is None);
}

/// A redirect operator followed by `(` (a process substitution) leaves the
/// plain simple-command grammar.
proof fn lemma_redirect_then_lparen(tv: Seq<TokView>, i: nat)
    requires
        i + 1 < tv.len(),
        redirect_kind_of(tv[i as int]) is Some,
        tv[i + 1 as int] is LParen,
    ensures
        spec_parse_pipeline(tv, i, Seq::empty()) is None,
{
    assert(spec_parse_simple(tv, i, Seq::empty(), Seq::empty()) is None);
}

} // verus!
