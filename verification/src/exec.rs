use vstd::prelude::*;
use crate::ast::{ListOp, Node, Redirect, RedirectKind, Word};
use crate::shell::{
    spec_cd_candidate, spec_expand_word, spec_normalize_path, spec_resolve_alias, str_views, Shell,
    ShellView,
};
use crate::ShellError;

verus! {

/// One redirect of a planned command, its target already expanded.
#[derive(Debug, PartialEq, Eq)]
pub struct RedirectPlan {
    pub kind: RedirectKind,
    pub target: String,
}

/// The mathematical shape of a planned redirect.
pub struct RedirectPlanView {
    pub kind: RedirectKind,
    pub target: Seq<char>,
}

impl View for RedirectPlan {
    type V = RedirectPlanView;

    open spec fn view(&self) -> RedirectPlanView {
        RedirectPlanView { kind: self.kind, target: self.target@ }
    }
}

/// One external command ready to spawn: the resolved program, the expanded
/// arguments, and the expanded redirects. The caller spawns it with the
/// shell's variable table as its environment.
#[derive(Debug, PartialEq, Eq)]
pub struct CommandPlan {
    pub program: String,
    pub args: Vec<String>,
    pub redirects: Vec<RedirectPlan>,
}

/// The mathematical shape of a planned command.
pub struct CmdPlanView {
    pub program: Seq<char>,
    pub args: Seq<Seq<char>>,
    pub redirects: Seq<RedirectPlanView>,
}

impl View for CommandPlan {
    type V = CmdPlanView;

    open spec fn view(&self) -> CmdPlanView {
        CmdPlanView {
            program: self.program@,
            args: str_views(self.args@),
            redirects: Seq::new(self.redirects@.len(), |i: int| self.redirects@[i]@),
        }
    }
}

/// What the driver must do next for one statement: nothing (the statement
/// completed or was skipped in-process), spawn an external command or
/// pipeline, attempt an operating-system directory change, read and replay
/// a sourced file, terminate the process, clear the terminal, or report a
/// recognized-but-unsupported construct.
#[derive(Debug, PartialEq, Eq)]
pub enum Action {
    Done,
    RunExternal(CommandPlan),
    RunPipeline(Vec<CommandPlan>),
    ChangeDir(String),
    RunSource(String),
    Exit(i32),
    ClearScreen,
    Unsupported,
}

/// The mathematical shape of an `Action`.
pub enum ActionView {
    Done,
    RunExternal(CmdPlanView),
    RunPipeline(Seq<CmdPlanView>),
    ChangeDir(Seq<char>),
    RunSource(Seq<char>),
    Exit(int),
    ClearScreen,
    Unsupported,
}

impl View for Action {
    type V = ActionView;

    open spec fn view(&self) -> ActionView {
        match self {
            Action::Done => ActionView::Done,
            Action::RunExternal(p) => ActionView::RunExternal(p@),
            Action::RunPipeline(ps) => ActionView::RunPipeline(
                Seq::new(ps@.len(), |i: int| ps@[i]@),
            ),
            Action::ChangeDir(t) => ActionView::ChangeDir(t@),
            Action::RunSource(t) => ActionView::RunSource(t@),
            Action::Exit(c) => ActionView::Exit(*c as int),
            Action::ClearScreen => ActionView::ClearScreen,
            Action::Unsupported => ActionView::Unsupported,
        }
    }
}

/// Whether the recorded separator lets the next statement run: `;` always,
/// `&&` only after success, `||` only after failure.
pub open spec fn spec_should_run(op: ListOp, status: int) -> bool {
    match op {
        ListOp::Sequential => true,
        ListOp::And => status == 0,
        ListOp::Or => status != 0,
    }
}

/// Decides from the recorded separator and the last exit status whether
/// the next statement of a list runs.
pub fn should_run(op: ListOp, status: i32) -> (r: bool)
    ensures
        r == spec_should_run(op, status as int),
{
    match op {
        ListOp::Sequential => true,
        ListOp::And => status == 0,
        ListOp::Or => status != 0,
    }
}

/// The fixed builtin set.
pub open spec fn spec_is_builtin(s: Seq<char>) -> bool {
    s == "cd"@ || s == "exit"@ || s == "export"@ || s == "alias"@ || s == "source"@ || s
        == "clear"@
}

/// A command name names a builtin, run in-process.
pub fn is_builtin(command: &str) -> (r: bool)
    ensures
        r == spec_is_builtin(command@),
{
    crate::parser::str_eq(command, "cd") || crate::parser::str_eq(command, "exit")
        || crate::parser::str_eq(command, "export") || crate::parser::str_eq(command, "alias")
        || crate::parser::str_eq(command, "source") || crate::parser::str_eq(command, "clear")
}

/// The value of a decimal digit character, or ten for any other character.
pub open spec fn digit_value(c: char) -> int {
    if c == '0' {
        0
    } else if c == '1' {
        1
    } else if c == '2' {
        2
    } else if c == '3' {
        3
    } else if c == '4' {
        4
    } else if c == '5' {
        5
    } else if c == '6' {
        6
    } else if c == '7' {
        7
    } else if c == '8' {
        8
    } else if c == '9' {
        9
    } else {
        10
    }
}

/// The value of an unsigned digit run starting from `acc`, or `None` at
/// the first non-digit.
pub open spec fn spec_digits_value(s: Seq<char>, i: int, acc: int) -> Option<int>
    decreases s.len() - i,
{
    if i < 0 || i >= s.len() {
        Some(acc)
    } else if digit_value(s[i]) < 10 {
        spec_digits_value(s, i + 1, acc * 10 + digit_value(s[i]))
    } else {
        None
    }
}

/// The value of decimal integer text within the 32-bit signed range, with
/// an optional sign; anything else is `None`.
pub open spec fn spec_parse_i32(s: Seq<char>) -> Option<int> {
    if s.len() == 0 {
        None
    } else if s[0] == '-' || s[0] == '+' {
        if s.len() == 1 {
            None
        } else {
            match spec_digits_value(s, 1, 0) {
                Some(v) => if s[0] == '-' {
                    if -v >= i32::MIN as int {
                        Some(-v)
                    } else {
                        None
                    }
                } else {
                    if v <= i32::MAX as int {
                        Some(v)
                    } else {
                        None
                    }
                },
                None => None,
            }
        }
    } else {
        match spec_digits_value(s, 0, 0) {
            Some(v) => if v <= i32::MAX as int {
                Some(v)
            } else {
                None
            },
            None => None,
        }
    }
}

proof fn lemma_digits_value_grows(s: Seq<char>, i: int, acc: int)
    requires
        acc >= 0,
    ensures
        spec_digits_value(s, i, acc) matches Some(v) ==> v >= acc,
    decreases s.len() - i,
{
    if 0 <= i < s.len() && digit_value(s[i]) < 10 {
        lemma_digits_value_grows(s, i + 1, acc * 10 + digit_value(s[i]));
    }
}

fn digit_of(c: char) -> (r: u32)
    ensures
        r as int == digit_value(c),
{
    if c == '0' {
        0
    } else if c == '1' {
        1
    } else if c == '2' {
        2
    } else if c == '3' {
        3
    } else if c == '4' {
        4
    } else if c == '5' {
        5
    } else if c == '6' {
        6
    } else if c == '7' {
        7
    } else if c == '8' {
        8
    } else if c == '9' {
        9
    } else {
        10
    }
}

/// Parses decimal integer text in the 32-bit signed range.
pub fn parse_i32(text: &str) -> (r: Option<i32>)
    ensures
        match (r, spec_parse_i32(text@)) {
            (Some(v), Some(sv)) => v as int == sv,
            (None, None) => true,
            _ => false,
        },
{
    let chars = crate::token::str_chars(text);
    let n = chars.len();
    if n == 0 {
        return None;
    }
    let negative = chars[0] == '-';
    let signed = negative || chars[0] == '+';
    let start: usize = if signed {
        1
    } else {
        0
    };
    if signed && n == 1 {
        return None;
    }
    let mut acc: i64 = 0;
    let mut i: usize = start;
    while i < n
        invariant
            start <= i <= n,
            n == chars@.len(),
            chars@ == text@,
            (start == 1) == (text@[0] == '-' || text@[0] == '+'),
            negative == (text@[0] == '-'),
            start == 1 || start == 0,
            start == 1 ==> n > 1,
            0 <= acc <= 2147483648,
            spec_digits_value(chars@, i as int, acc as int) == spec_digits_value(
                chars@,
                start as int,
                0,
            ),
        decreases n - i,
    {
        let d = digit_of(chars[i]);
        if d >= 10 {
            proof {
                assert(spec_digits_value(chars@, i as int, acc as int) is None);
                assert(spec_parse_i32(text@) is None);
            }
            return None;
        }
        acc = acc * 10 + (d as i64);
        i = i + 1;
        if acc > 2147483648 {
            proof {
                lemma_digits_value_grows(chars@, i as int, acc as int);
                assert(spec_parse_i32(text@) is None);
            }
            return None;
        }
    }
    if negative {
        let v: i64 = -acc;
        proof {
            assert(v >= i32::MIN as int);
        }
        Some(v as i32)
    } else {
        if acc <= 2147483647 {
            Some(acc as i32)
        } else {
            None
        }
    }
}

/// The words of a command expanded against the state, element by element.
pub open spec fn spec_expanded_args(sv: ShellView, ws: Seq<Word>) -> Seq<Seq<char>> {
    Seq::new(ws.len(), |i: int| spec_expand_word(sv, ws[i]@))
}

/// The views of a sequence of planned redirects.
pub open spec fn redirect_plan_views(rs: Seq<RedirectPlan>) -> Seq<RedirectPlanView> {
    Seq::new(rs.len(), |i: int| rs[i]@)
}

/// The redirects of a command with their targets expanded.
pub open spec fn spec_plan_redirects(sv: ShellView, rs: Seq<Redirect>) -> Seq<RedirectPlanView> {
    Seq::new(
        rs.len(),
        |i: int|
            RedirectPlanView { kind: rs[i].kind, target: spec_expand_word(sv, rs[i].target@) },
    )
}

/// The plan of one simple command: the first word expanded and run through
/// alias resolution (its replacement words joining the front of the
/// expanded arguments), and the redirects expanded.
pub open spec fn spec_plan_command(
    sv: ShellView,
    name: Word,
    args: Seq<Word>,
    rs: Seq<Redirect>,
) -> CmdPlanView {
    let resolved = spec_resolve_alias(
        sv.aliases,
        spec_expand_word(sv, name@),
        spec_expanded_args(sv, args),
        Set::empty(),
        crate::shell::alias_expansion_ceiling(),
    );
    CmdPlanView {
        program: resolved.0,
        args: resolved.1,
        redirects: spec_plan_redirects(sv, rs),
    }
}

/// The actively executed redirect kinds; the deferred kinds are rejected
/// gracefully.
pub open spec fn executable_redirect(k: RedirectKind) -> bool {
    k == RedirectKind::Input || k == RedirectKind::Output || k == RedirectKind::Append
}

pub open spec fn all_redirects_executable(rs: Seq<RedirectPlanView>) -> bool {
    forall|i: int| 0 <= i < rs.len() ==> executable_redirect((#[trigger] rs[i]).kind)
}

/// The mapping and exit status after applying `NAME=VALUE` texts in order:
/// each text with `=` inserts and reports success, each without fails.
/// In the variable table (not the alias table) the name `?` means the last
/// exit status and is intercepted, never stored.
pub open spec fn spec_apply_assignments(
    m: Map<Seq<char>, Seq<char>>,
    args: Seq<Seq<char>>,
    i: int,
    status: int,
    intercept: bool,
) -> (Map<Seq<char>, Seq<char>>, int)
    decreases args.len() - i,
{
    if i < 0 || i >= args.len() {
        (m, status)
    } else {
        match crate::shell::spec_assignment_of(args[i]) {
            Some(kv) => if intercept && kv.0 == seq!['?'] {
                spec_apply_assignments(m, args, i + 1, 0, intercept)
            } else {
                spec_apply_assignments(m.insert(kv.0, kv.1), args, i + 1, 0, intercept)
            },
            None => spec_apply_assignments(m, args, i + 1, 1, intercept),
        }
    }
}

/// The code an `exit` terminates with: its first argument read as a
/// decimal integer, or zero.
pub open spec fn spec_exit_code(args: Seq<Seq<char>>) -> int {
    if args.len() == 0 {
        0
    } else {
        match spec_parse_i32(args[0]) {
            Some(v) => v,
            None => 0,
        }
    }
}

/// The state with only the exit status changed.
pub open spec fn with_status(sv: ShellView, st: int) -> ShellView {
    ShellView { exit_status: st, ..sv }
}

/// The plan of a pipeline stage; only `Command` nodes are plannable.
pub open spec fn spec_node_plan(sv: ShellView, n: Node) -> CmdPlanView {
    match n {
        Node::Command { name, args, redirects } => spec_plan_command(sv, name, args@, redirects@),
        _ => CmdPlanView { program: Seq::empty(), args: Seq::empty(), redirects: Seq::empty() },
    }
}

/// Every stage of the pipeline is a simple command whose redirects the
/// executor can apply.
pub open spec fn pipeline_plannable(sv: ShellView, cs: Seq<Node>) -> bool {
    forall|i: int|
        0 <= i < cs.len() ==> ((#[trigger] cs[i]) is Command && all_redirects_executable(
            spec_node_plan(sv, cs[i]).redirects,
        ))
}

/// The exact effect of executing one statement against the state: the new
/// state, and either the action handed to the driver or the error. The
/// dispatch follows the resolved first word: builtins act in-process
/// (`export`/`alias` fold their assignments, `cd` computes its target for
/// the driver to attempt, `exit` parses its code, `source` names the file,
/// `clear` asks for a terminal wipe), everything else becomes an external
/// command or pipeline spawn. A recognized-but-deferred construct (or a
/// deferred redirect kind) reports `Unsupported` explicitly and leaves the
/// state untouched: the last exit status still belongs to the most recently
/// completed command.
pub open spec fn spec_execute_statement(sv: ShellView, n: Node) -> (
    ShellView,
    Result<ActionView, ShellError>,
) {
    match n {
        Node::Command { name, args, redirects } => {
            let plan = spec_plan_command(sv, name, args@, redirects@);
            if plan.program == "cd"@ {
                if plan.args.len() > 1 {
                    (with_status(sv, 1), Err(ShellError::InvalidInput))
                } else {
                    (
                        sv,
                        Ok(
                            ActionView::ChangeDir(
                                spec_normalize_path(spec_cd_candidate(sv, plan.args)),
                            ),
                        ),
                    )
                }
            } else if plan.program == "exit"@ {
                (sv, Ok(ActionView::Exit(spec_exit_code(plan.args))))
            } else if plan.program == "export"@ {
                let fold = spec_apply_assignments(sv.vars, plan.args, 0, 0, true);
                (ShellView { vars: fold.0, exit_status: fold.1, ..sv }, Ok(ActionView::Done))
            } else if plan.program == "alias"@ {
                let fold = spec_apply_assignments(sv.aliases, plan.args, 0, 0, false);
                (ShellView { aliases: fold.0, exit_status: fold.1, ..sv }, Ok(ActionView::Done))
            } else if plan.program == "source"@ {
                if plan.args.len() == 0 {
                    (with_status(sv, 1), Err(ShellError::InvalidInput))
                } else {
                    (sv, Ok(ActionView::RunSource(plan.args[0])))
                }
            } else if plan.program == "clear"@ {
                (sv, Ok(ActionView::ClearScreen))
            } else if !all_redirects_executable(plan.redirects) {
                (sv, Ok(ActionView::Unsupported))
            } else {
                (sv, Ok(ActionView::RunExternal(plan)))
            }
        },
        Node::Pipeline { commands } => {
            if pipeline_plannable(sv, commands@) {
                (
                    sv,
                    Ok(
                        ActionView::RunPipeline(
                            Seq::new(commands@.len(), |i: int| spec_node_plan(sv, commands@[i])),
                        ),
                    ),
                )
            } else {
                (sv, Ok(ActionView::Unsupported))
            }
        },
        Node::Export { name, value } => {
            match value {
                Option::Some(bv) => match *bv {
                    Node::StringLiteral(t) => {
                        let combined = name@ + seq!['='] + t@;
                        match crate::shell::spec_assignment_of(combined) {
                            Some(kv) => if kv.0 == seq!['?'] {
                                (with_status(sv, 0), Ok(ActionView::Done))
                            } else {
                                (
                                    ShellView {
                                        vars: sv.vars.insert(kv.0, kv.1),
                                        exit_status: 0,
                                        ..sv
                                    },
                                    Ok(ActionView::Done),
                                )
                            },
                            None => (with_status(sv, 1), Ok(ActionView::Done)),
                        }
                    },
                    _ => (sv, Ok(ActionView::Unsupported)),
                },
                Option::None => (with_status(sv, 0), Ok(ActionView::Done)),
            }
        },
        _ => (sv, Ok(ActionView::Unsupported)),
    }
}

/// Expands the words of a command against the state.
fn expand_args(sh: &Shell, ws: &Vec<Word>) -> (r: Vec<String>)
    ensures
        str_views(r@) == spec_expanded_args(sh@, ws@),
{
    let mut out: Vec<String> = Vec::new();
    let n = ws.len();
    let mut i: usize = 0;
    while i < n
        invariant
            i <= n,
            n == ws@.len(),
            out@.len() == i,
            forall|k: int| 0 <= k < i ==> (#[trigger] out@[k])@ == spec_expand_word(sh@, ws@[k]@),
        decreases n - i,
    {
        out.push(sh.expand_word(vstd::std_specs::vec::vec_index(ws, i)));
        i = i + 1;
    }
    proof {
        assert(str_views(out@) =~= spec_expanded_args(sh@, ws@));
    }
    out
}

/// Expands the redirect targets of a command against the state.
fn plan_redirects(sh: &Shell, rs: &Vec<Redirect>) -> (r: Vec<RedirectPlan>)
    ensures
        redirect_plan_views(r@) == spec_plan_redirects(sh@, rs@),
{
    let mut out: Vec<RedirectPlan> = Vec::new();
    let n = rs.len();
    let mut i: usize = 0;
    while i < n
        invariant
            i <= n,
            n == rs@.len(),
            out@.len() == i,
            forall|k: int|
                0 <= k < i ==> (#[trigger] out@[k])@ == (RedirectPlanView {
                    kind: rs@[k].kind,
                    target: spec_expand_word(sh@, rs@[k].target@),
                }),
        decreases n - i,
    {
        let rd = vstd::std_specs::vec::vec_index(rs, i);
        out.push(RedirectPlan { kind: rd.kind, target: sh.expand_word(&rd.target) });
        i = i + 1;
    }
    proof {
        assert(redirect_plan_views(out@) =~= spec_plan_redirects(sh@, rs@));
    }
    out
}

/// Builds the plan of one simple command: expansion, alias resolution,
/// redirect expansion.
fn plan_command(sh: &Shell, name: &Word, args: &Vec<Word>, rs: &Vec<Redirect>) -> (r: CommandPlan)
    ensures
        r@ == spec_plan_command(sh@, *name, args@, rs@),
{
    let name_e = sh.expand_word(name);
    let expanded = expand_args(sh, args);
    let (program, rargs) = sh.resolve_alias(&name_e, &expanded);
    let redirects = plan_redirects(sh, rs);
    let r = CommandPlan { program, args: rargs, redirects };
    proof {
        assert(redirect_plan_views(r.redirects@) =~= Seq::new(
            r.redirects@.len(),
            |i: int| r.redirects@[i]@,
        ));
    }
    r
}

/// Tests that every redirect of a plan is of an actively executed kind.
fn check_redirects(rs: &Vec<RedirectPlan>) -> (r: bool)
    ensures
        r == all_redirects_executable(redirect_plan_views(rs@)),
{
    let n = rs.len();
    let mut i: usize = 0;
    while i < n
        invariant
            i <= n,
            n == rs@.len(),
            forall|k: int|
                0 <= k < i ==> executable_redirect((#[trigger] redirect_plan_views(rs@)[k]).kind),
        decreases n - i,
    {
        let ok = match vstd::std_specs::vec::vec_index(rs, i).kind {
            RedirectKind::Input => true,
            RedirectKind::Output => true,
            RedirectKind::Append => true,
            _ => false,
        };
        if !ok {
            proof {
                assert(!executable_redirect(redirect_plan_views(rs@)[i as int].kind));
            }
            return false;
        }
        i = i + 1;
    }
    true
}

/// The walk over one parsed top-level node: the statements still to run
/// and the separators recorded before each one after the first. The driver
/// asks for one action at a time, performs it, reports its outcome into
/// the state, and asks again.
pub struct Execution {
    rest: Vec<Node>,
    gates: Vec<ListOp>,
    first: bool,
}

impl Execution {
    /// The statements still to run.
    pub closed spec fn pending(&self) -> Seq<Node> {
        self.rest@
    }

    /// The separators gating the statements after the first.
    pub closed spec fn gate_queue(&self) -> Seq<ListOp> {
        self.gates@
    }

    /// No statement has been taken yet.
    pub closed spec fn at_first(&self) -> bool {
        self.first
    }

    /// The separator gating the next statement; the first statement of a
    /// list runs unconditionally.
    pub open spec fn next_gate(&self) -> Option<ListOp> {
        if self.at_first() || self.gate_queue().len() == 0 {
            None
        } else {
            Some(self.gate_queue()[0])
        }
    }

    /// Starts walking one parsed node: a `List` contributes its statements
    /// and separators, any other node stands alone.
    pub fn begin(node: Node) -> (r: Execution)
        ensures
            r.at_first(),
            match node {
                Node::List { statements, operators } => r.pending() == statements@
                    && r.gate_queue() == operators@,
                _ => r.pending() == seq![node] && r.gate_queue() == Seq::<ListOp>::empty(),
            },
    {
        match node {
            Node::List { statements, operators } => Execution {
                rest: statements,
                gates: operators,
                first: true,
            },
            other => {
                let mut rest: Vec<Node> = Vec::new();
                proof {
                    assert(rest@.push(other) =~= seq![other]);
                }
                rest.push(other);
                Execution { rest, gates: Vec::new(), first: true }
            },
        }
    }

    /// Takes the next statement: a statement whose separator forbids it
    /// (given the last exit status) is skipped with nothing done; one that
    /// runs updates the state in-process as far as builtins go and hands
    /// back the action the driver must perform; a recognized-but-deferred
    /// construct hands back `Unsupported` with the state untouched. `None`
    /// means the walk is over.
    pub fn next_action(&mut self, sh: &mut Shell) -> (r: Result<Option<Action>, ShellError>)
        requires
            old(sh).wf(),
        ensures
            final(sh).wf(),
            old(self).pending().len() == 0 ==> (r matches Ok(a) && a is None && final(sh)@ == old(
                sh,
            )@ && final(self).pending() == old(self).pending()),
            old(self).pending().len() > 0 ==> {
                &&& final(self).pending() == old(self).pending().drop_first()
                &&& !final(self).at_first()
                &&& final(self).gate_queue() == (if old(self).at_first() || old(
                    self,
                ).gate_queue().len() == 0 {
                    old(self).gate_queue()
                } else {
                    old(self).gate_queue().drop_first()
                })
                &&& ({
                    let blocked = (old(self).next_gate() matches Some(g) && !spec_should_run(
                        g,
                        old(sh)@.exit_status,
                    ));
                    if blocked {
                        (r matches Ok(a) && a matches Some(act) && act@ == ActionView::Done)
                            && final(sh)@ == old(sh)@
                    } else {
                        let step = spec_execute_statement(old(sh)@, old(self).pending()[0]);
                        final(sh)@ == step.0 && (match (r, step.1) {
                            (Ok(roa), Ok(av)) => roa matches Some(act) && act@ == av,
                            (Err(e), Err(se)) => e == se,
                            _ => false,
                        })
                    }
                })
            },
    {
        if self.rest.len() == 0 {
            return Ok(None);
        }
        let node = self.rest.remove(0);
        proof {
            assert(self.rest@ =~= old(self).pending().drop_first());
        }
        let run = if self.first {
            self.first = false;
            true
        } else if self.gates.len() > 0 {
            let g = self.gates.remove(0);
            proof {
                assert(self.gates@ =~= old(self).gate_queue().drop_first());
            }
            should_run(g, sh.exit_status())
        } else {
            true
        };
        self.first = false;
        if !run {
            return Ok(Some(Action::Done));
        }
        match node {
            Node::Command { name, args, redirects } => {
                let plan = plan_command(sh, &name, &args, &redirects);
                if crate::parser::str_eq(plan.program.as_str(), "cd") {
                    match sh.prepare_change_directory(&plan.args) {
                        Ok(target) => Ok(Some(Action::ChangeDir(target))),
                        Err(e) => {
                            sh.set_exit_status(1);
                            Err(e)
                        },
                    }
                } else if crate::parser::str_eq(plan.program.as_str(), "exit") {
                    let code: i32 = if plan.args.len() > 0 {
                        match parse_i32(vstd::std_specs::vec::vec_index(&plan.args, 0).as_str()) {
                            Some(v) => v,
                            None => 0,
                        }
                    } else {
                        0
                    };
                    Ok(Some(Action::Exit(code)))
                } else if crate::parser::str_eq(plan.program.as_str(), "export") {
                    apply_assignment_args(sh, &plan.args, false);
                    Ok(Some(Action::Done))
                } else if crate::parser::str_eq(plan.program.as_str(), "alias") {
                    apply_assignment_args(sh, &plan.args, true);
                    Ok(Some(Action::Done))
                } else if crate::parser::str_eq(plan.program.as_str(), "source") {
                    if plan.args.len() == 0 {
                        sh.set_exit_status(1);
                        Err(ShellError::InvalidInput)
                    } else {
                        let mut args = plan.args;
                        let path = args.remove(0);
                        Ok(Some(Action::RunSource(path)))
                    }
                } else if crate::parser::str_eq(plan.program.as_str(), "clear") {
                    Ok(Some(Action::ClearScreen))
                } else if !check_redirects(&plan.redirects) {
                    Ok(Some(Action::Unsupported))
                } else {
                    Ok(Some(Action::RunExternal(plan)))
                }
            },
            Node::Pipeline { commands } => {
                let mut plans: Vec<CommandPlan> = Vec::new();
                let n = commands.len();
                let mut i: usize = 0;
                while i < n
                    invariant
                        i <= n,
                        n == commands@.len(),
                        sh@ == old(sh)@,
                        sh.wf(),
                        plans@.len() == i,
                        old(self).pending().len() > 0,
                        self.rest@ == old(self).pending().drop_first(),
                        !self.first,
                        self.gates@ == (if old(self).at_first() || old(self).gate_queue().len()
                            == 0 {
                            old(self).gate_queue()
                        } else {
                            old(self).gate_queue().drop_first()
                        }),
                        !(old(self).next_gate() matches Some(g) && !spec_should_run(
                            g,
                            old(sh)@.exit_status,
                        )),
                        (old(self).pending()[0] matches Node::Pipeline { commands: c } && c@
                            == commands@),
                        forall|k: int|
                            0 <= k < i ==> ((#[trigger] commands@[k]) is Command
                                && all_redirects_executable(
                                spec_node_plan(old(sh)@, commands@[k]).redirects,
                            ) && plans@[k]@ == spec_node_plan(old(sh)@, commands@[k])),
                    decreases n - i,
                {
                    match vstd::std_specs::vec::vec_index(&commands, i) {
                        Node::Command { name, args, redirects } => {
                            let plan = plan_command(sh, name, args, redirects);
                            if !check_redirects(&plan.redirects) {
                                proof {
                                    assert(!pipeline_plannable(old(sh)@, commands@));
                                }
                                return Ok(Some(Action::Unsupported));
                            }
                            plans.push(plan);
                        },
                        _ => {
                            proof {
                                assert(!((commands@[i as int]) is Command));
                                assert(!pipeline_plannable(old(sh)@, commands@));
                            }
                            return Ok(Some(Action::Unsupported));
                        },
                    }
                    i = i + 1;
                }
                let act = Action::RunPipeline(plans);
                proof {
                    assert(act@ matches ActionView::RunPipeline(ps) && ps =~= Seq::new(
                        commands@.len(),
                        |k: int| spec_node_plan(old(sh)@, commands@[k]),
                    ));
                }
                Ok(Some(act))
            },
            Node::Export { name, value } => {
                match value {
                    Option::Some(bv) => match *bv {
                        Node::StringLiteral(t) => {
                            let mut combined = name;
                            combined.append("=");
                            combined.append(t.as_str());
                            sh.add_variable(combined.as_str());
                            proof {
                                reveal_strlit("=");
                                assert(old(self).pending()[0] matches Node::Export {
                                    name: n2,
                                    value: _,
                                } && combined@ =~= n2@ + seq!['='] + t@);
                            }
                            Ok(Some(Action::Done))
                        },
                        _ => Ok(Some(Action::Unsupported)),
                    },
                    Option::None => {
                        sh.set_exit_status(0);
                        Ok(Some(Action::Done))
                    },
                }
            },
            _ => Ok(Some(Action::Unsupported)),
        }
    }
}

/// Applies `NAME=VALUE` arguments in order to the variable table (or, for
/// the `alias` builtin, the alias table), leaving the status of the last
/// application.
fn apply_assignment_args(sh: &mut Shell, args: &Vec<String>, to_aliases: bool)
    requires
        old(sh).wf(),
    ensures
        final(sh).wf(),
        !to_aliases ==> ({
            let fold = spec_apply_assignments(old(sh)@.vars, str_views(args@), 0, 0, true);
            final(sh)@ == (ShellView { vars: fold.0, exit_status: fold.1, ..old(sh)@ })
        }),
        to_aliases ==> ({
            let fold = spec_apply_assignments(old(sh)@.aliases, str_views(args@), 0, 0, false);
            final(sh)@ == (ShellView { aliases: fold.0, exit_status: fold.1, ..old(sh)@ })
        }),
{
    sh.set_exit_status(0);
    let n = args.len();
    let mut i: usize = 0;
    let ghost av = str_views(args@);
    while i < n
        invariant
            i <= n,
            n == args@.len(),
            av == str_views(args@),
            sh.wf(),
            sh@.home_dir == old(sh)@.home_dir,
            sh@.current_dir == old(sh)@.current_dir,
            !to_aliases ==> sh@.aliases == old(sh)@.aliases && spec_apply_assignments(
                sh@.vars,
                av,
                i as int,
                sh@.exit_status,
                true,
            ) == spec_apply_assignments(old(sh)@.vars, av, 0, 0, true),
            to_aliases ==> sh@.vars == old(sh)@.vars && spec_apply_assignments(
                sh@.aliases,
                av,
                i as int,
                sh@.exit_status,
                false,
            ) == spec_apply_assignments(old(sh)@.aliases, av, 0, 0, false),
        decreases n - i,
    {
        let a = vstd::std_specs::vec::vec_index(args, i);
        if to_aliases {
            sh.add_alias(a.as_str());
        } else {
            sh.add_variable(a.as_str());
        }
        i = i + 1;
    }
}

/// The status a finished pipeline reports: the last stage's exit code, or
/// zero for an empty pipeline.
pub open spec fn spec_pipeline_status(codes: Seq<i32>) -> int {
    if codes.len() == 0 {
        0
    } else {
        codes.last() as int
    }
}

/// The status a pipeline reports depends only on its last stage: two runs
/// whose last stages exited alike report alike, whatever the earlier
/// stages did.
pub proof fn lemma_pipeline_status_last_stage_only(a: Seq<i32>, b: Seq<i32>)
    requires
        a.len() > 0,
        b.len() > 0,
        a.last() == b.last(),
    ensures
        spec_pipeline_status(a) == spec_pipeline_status(b),
{
}

/// The exit status of a pipeline is its last stage's status, not an
/// earlier stage's.
pub fn pipeline_status(codes: &Vec<i32>) -> (r: i32)
    ensures
        r as int == spec_pipeline_status(codes@),
{
    if codes.len() == 0 {
        0
    } else {
        codes[codes.len() - 1]
    }
}

/// What a line of a sourced file feeds back into the execute entry point:
/// the line trimmed of blanks, or nothing for a blank line or a `#`
/// comment line.
pub open spec fn spec_source_line(line: Seq<char>) -> Option<Seq<char>> {
    let t = crate::shell::spec_trim_blanks(line);
    if t.len() == 0 || t[0] == '#' {
        None
    } else {
        Some(t)
    }
}

/// Prepares one line of a sourced file: blank lines and `#` comment lines
/// are skipped, every other line is executed trimmed.
pub fn prepare_source_line(line: &str) -> (r: Option<String>)
    ensures
        match r {
            Some(t) => spec_source_line(line@) == Some(t@),
            None => spec_source_line(line@) is None,
        },
{
    let t = crate::shell::trim_blanks(line);
    let chars = crate::token::str_chars(t.as_str());
    if chars.len() == 0 {
        return None;
    }
    if chars[0] == '#' {
        return None;
    }
    Some(t)
}

} // verus!
