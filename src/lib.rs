//! Front end of the bline scripting language: a lexer producing positioned
//! tokens, a recursive-descent parser producing an abstract syntax tree, and a
//! type-directed lowering of expressions to target-language fragments.
use vstd::prelude::*;
use vstd::string::StringExecFns;

pub mod lexer;
pub mod parser;
pub mod text;
pub mod transpiler;
pub mod types;

use crate::text::{decimal, decimal_string, join2, join5};
use crate::types::Start;

verus! {

/// The three families of fatal diagnostics.
#[derive(Debug, Clone, Copy, PartialEq, Eq, Structural)]
pub enum ErrorKind {
    Lexical,
    Syntax,
    Type,
}

/// A fatal diagnostic: its family, the source position it points at (type
/// errors carry none, as expressions hold no positions), and its message.
#[derive(Debug)]
pub struct CompileError {
    pub kind: ErrorKind,
    pub start: Option<Start>,
    pub message: String,
}

/// `e` is the diagnostic of family `kind` at `start` with message `message`.
pub open spec fn is_error(e: CompileError, kind: ErrorKind, start: Option<Start>, message: Seq<char>) -> bool {
    &&& e.kind == kind
    &&& e.start == start
    &&& e.message@ == message
}

/// The text of a diagnostic at a source position.
pub open spec fn diagnostic(line: u32, column: u32, message: Seq<char>) -> Seq<char> {
    "\n| Error at: Ln "@ + decimal(line as nat) + ", Col "@ + decimal(column as nat) + ", "@ + message
}

/// The diagnostic text for `message` at `line` and `column`, as the driver
/// prints it to the error stream.
pub fn error(line: u32, column: u32, message: &str) -> (r: String)
    ensures
        r@ == diagnostic(line, column, message@),
{
    let l = decimal_string(line);
    let c = decimal_string(column);
    let mut r = join5("\n| Error at: Ln ", l.as_str(), ", Col ", c.as_str(), ", ");
    r.append(message);
    r
}

impl CompileError {
    /// The text printed for this error: with its position where it has one.
    pub fn report(&self) -> (r: String)
        ensures
            r@ == match self.start {
                Some(s) => diagnostic(s.line, s.column, self.message@),
                None => "\n| Error: "@ + self.message@,
            },
    {
        match self.start {
            Some(s) => error(s.line, s.column, self.message.as_str()),
            None => join2("\n| Error: ", self.message.as_str()),
        }
    }
}

} // verus!
