//! The core of a command shell, verified with Verus: a lexer over shell
//! quoting and variable syntax, a recursive-descent parser building a shell
//! syntax tree, an expander for aliases and variables, and an execution
//! engine that walks the tree, runs builtins in-process and plans every
//! outside effect — process spawns, pipe wiring, redirections, directory
//! changes — as an explicit action for an unverified driver to perform and
//! report back. The shell state (directories, variable and alias tables,
//! last exit status) is modeled as a mathematical view that every contract
//! speaks of.
//!
//! Data flow: raw line -> `token` -> `parser` -> `ast` -> `exec` (with
//! `shell` state) -> actions for the driver -> reported statuses back into
//! the state.

pub mod ast;
pub mod parser;
pub mod exec;
pub mod shell;
pub mod token;

use vstd::prelude::*;

verus! {

/// The error taxonomy of the shell: `NotFound` for an undiscoverable home
/// directory or a missing command, `InvalidInput` for malformed command lines
/// (unterminated quotes, bad builtin arguments, unusable `cd` targets), and
/// `Interrupted` for an aborted interactive read.
#[derive(Clone, Copy, Debug, PartialEq, Eq, Structural)]
pub enum ShellError {
    NotFound,
    InvalidInput,
    Interrupted,
}

} // verus!
