use vstd::prelude::*;

verus! {

/// One piece of a double-quoted span: a literal run, or an embedded
/// `$name` / `${name}` reference to be resolved at execution time.
#[derive(Debug, PartialEq, Eq)]
pub enum QuotedPiece {
    Literal(String),
    Variable(String),
    VariableBraced(String),
}

/// The mathematical shape of a `QuotedPiece`.
pub enum PieceView {
    Literal(Seq<char>),
    Variable(Seq<char>),
    VariableBraced(Seq<char>),
}

impl View for QuotedPiece {
    type V = PieceView;

    open spec fn view(&self) -> PieceView {
        match self {
            QuotedPiece::Literal(s) => PieceView::Literal(s@),
            QuotedPiece::Variable(s) => PieceView::Variable(s@),
            QuotedPiece::VariableBraced(s) => PieceView::VariableBraced(s@),
        }
    }
}

/// One argument (or the name) of a simple command, before expansion:
/// a bare word, an opaque single-quoted literal, a variable reference, or a
/// double-quoted mix of literal runs and variable references.
#[derive(Debug, PartialEq, Eq)]
pub enum Word {
    Literal(String),
    SingleQuoted(String),
    Variable(String),
    VariableBraced(String),
    DoubleQuoted(Vec<QuotedPiece>),
}

/// The mathematical shape of a `Word`.
pub enum WordView {
    Literal(Seq<char>),
    SingleQuoted(Seq<char>),
    Variable(Seq<char>),
    VariableBraced(Seq<char>),
    DoubleQuoted(Seq<PieceView>),
}

impl View for Word {
    type V = WordView;

    open spec fn view(&self) -> WordView {
        match self {
            Word::Literal(s) => WordView::Literal(s@),
            Word::SingleQuoted(s) => WordView::SingleQuoted(s@),
            Word::Variable(s) => WordView::Variable(s@),
            Word::VariableBraced(s) => WordView::VariableBraced(s@),
            Word::DoubleQuoted(ps) => WordView::DoubleQuoted(
                Seq::new(ps@.len(), |i: int| ps@[i]@),
            ),
        }
    }
}

/// The views of a sequence of words, element by element.
pub open spec fn word_views(ws: Seq<Word>) -> Seq<WordView> {
    Seq::new(ws.len(), |i: int| ws[i]@)
}

/// How a redirect binds a standard stream: the actively executed kinds are
/// `Input` (`<`), `Output` (`>`) and `Append` (`>>`); the remaining kinds are
/// recognized by the grammar and rejected gracefully by the executor.
#[derive(Debug, Clone, Copy, PartialEq, Eq, Structural)]
pub enum RedirectKind {
    Input,
    Output,
    Append,
    HereDoc,
    HereDocDash,
    HereString,
    InputDup,
    OutputDup,
}

/// A per-command instruction binding standard input or output to a file
/// (or, for the deferred kinds, naming a delimiter or descriptor).
#[derive(Debug, PartialEq, Eq)]
pub struct Redirect {
    pub kind: RedirectKind,
    pub target: Word,
}

/// The mathematical shape of a `Redirect`.
pub struct RedirectView {
    pub kind: RedirectKind,
    pub target: WordView,
}

impl View for Redirect {
    type V = RedirectView;

    open spec fn view(&self) -> RedirectView {
        RedirectView { kind: self.kind, target: self.target@ }
    }
}

/// The views of a sequence of redirects, element by element.
pub open spec fn redirect_views(rs: Seq<Redirect>) -> Seq<RedirectView> {
    Seq::new(rs.len(), |i: int| rs[i]@)
}

/// The separator recorded between two adjacent statements of a list:
/// `;` (and newline) runs the next statement unconditionally, `&&` only
/// after success, `||` only after failure.
#[derive(Debug, Clone, Copy, PartialEq, Eq, Structural)]
pub enum ListOp {
    Sequential,
    And,
    Or,
}

/// One arm of a `case` statement: `|`-separated patterns and a body.
#[derive(Debug, PartialEq, Eq)]
pub struct CaseArm {
    pub patterns: Vec<Word>,
    pub body: Box<Node>,
}

/// One node of the shell abstract syntax tree. The actively executed cases
/// are `Command`, `Pipeline`, `List` and `Export`; every other case is
/// recognized and fully parsed so the parser never silently drops
/// unsupported syntax, and the executor rejects it explicitly.
#[derive(Debug, PartialEq, Eq)]
pub enum Node {
    Command { name: Word, args: Vec<Word>, redirects: Vec<Redirect> },
    Pipeline { commands: Vec<Node> },
    List { statements: Vec<Node>, operators: Vec<ListOp> },
    Export { name: String, value: Option<Box<Node>> },
    Subshell { body: Box<Node> },
    IfStatement {
        condition: Box<Node>,
        then_body: Box<Node>,
        elif_branches: Vec<Node>,
        else_branch: Option<Box<Node>>,
    },
    ElifBranch { condition: Box<Node>, body: Box<Node> },
    ElseBranch { body: Box<Node> },
    CaseStatement { word: Word, arms: Vec<CaseArm> },
    ForLoop { var: String, items: Vec<Word>, body: Box<Node> },
    WhileLoop { condition: Box<Node>, body: Box<Node> },
    UntilLoop { condition: Box<Node>, body: Box<Node> },
    Function { name: String, body: Box<Node> },
    FunctionCall { name: String, args: Vec<Word> },
    CommandSubstitution { body: Box<Node> },
    ArithmeticExpansion { expr: String },
    ArithmeticCommand { expr: String },
    ExtGlobPattern { pattern: String },
    ParameterExpansion { expr: String },
    ProcessSubstitution { body: Box<Node> },
    HistoryExpansion { pattern: String },
    Negation { node: Box<Node> },
    Group { body: Box<Node> },
    SelectStatement { var: String, items: Vec<Word>, body: Box<Node> },
    Array { name: String, elements: Vec<Word> },
    Return { value: Option<String> },
    Complete { args: Vec<Word> },
    ExtendedTest { words: Vec<Word> },
    Comment(String),
    StringLiteral(String),
    SingleQuotedString(String),
}

/// The mathematical shape of a simple command: the name, the arguments and
/// the redirects, as word views.
pub struct CmdView {
    pub name: WordView,
    pub args: Seq<WordView>,
    pub redirects: Seq<RedirectView>,
}

/// A node is exactly the simple command described by `c`.
pub open spec fn node_is_command(n: Node, c: CmdView) -> bool {
    match n {
        Node::Command { name, args, redirects } => {
            &&& name@ == c.name
            &&& word_views(args@) == c.args
            &&& redirect_views(redirects@) == c.redirects
        },
        _ => false,
    }
}

/// One statement of a list: either a simple command or a pipeline of them.
pub enum AndOrView {
    Single(CmdView),
    Pipe(Seq<CmdView>),
}

/// A node is exactly the command or pipeline described by `a`.
pub open spec fn node_is_and_or(n: Node, a: AndOrView) -> bool {
    match a {
        AndOrView::Single(c) => node_is_command(n, c),
        AndOrView::Pipe(cs) => match n {
            Node::Pipeline { commands } => {
                &&& commands@.len() == cs.len()
                &&& forall|i: int|
                    0 <= i < cs.len() ==> node_is_command(#[trigger] commands@[i], cs[i])
            },
            _ => false,
        },
    }
}

/// The mathematical shape of a statement list: the statements in order and
/// the separator recorded between each adjacent pair.
pub struct ListView {
    pub statements: Seq<AndOrView>,
    pub operators: Seq<ListOp>,
}

/// A node is exactly the statement list described by `l`: a single statement
/// stands bare, several are wrapped in a `List` node.
pub open spec fn node_is_list(n: Node, l: ListView) -> bool {
    if l.statements.len() == 1 && l.operators.len() == 0 {
        node_is_and_or(n, l.statements[0])
    } else {
        match n {
            Node::List { statements, operators } => {
                &&& statements@.len() == l.statements.len()
                &&& operators@ == l.operators
                &&& forall|i: int|
                    0 <= i < l.statements.len() ==> node_is_and_or(
                        #[trigger] statements@[i],
                        l.statements[i],
                    )
            },
            _ => false,
        }
    }
}

} // verus!
