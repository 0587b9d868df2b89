//! Diagnostics: every failure of the compiler is one of these, keyed to a
//! source position.
use vstd::prelude::*;

verus! {

/// What went wrong.
#[derive(Debug, Clone, Copy, PartialEq, Eq, Structural)]
pub enum ErrorKind {
    /// Unterminated string, invalid escape, unexpected character.
    Lex,
    /// Unexpected token, missing punctuator, `void` variable.
    Parse,
    /// Unknown variable, unknown function, missing import path.
    Name,
    /// Return-type-only overload or duplicate signature.
    Overload,
    /// Division or modulo by zero, or a string concatenation that cannot fold.
    Fold,
    /// A construct that this backend does not lower.
    Unsupported,
}

/// A fatal diagnostic: a message and the source span it is about.
#[derive(Debug)]
pub struct CompileError {
    pub kind: ErrorKind,
    pub message: String,
    pub lineno: usize,
    pub start: usize,
    pub end: usize,
}

/// The process exit code for an error of kind `k`: 2 for parse errors, 1 otherwise.
pub open spec fn exit_code_of(k: ErrorKind) -> i32 {
    if k == ErrorKind::Parse {
        2
    } else {
        1
    }
}

impl CompileError {
    pub fn new(kind: ErrorKind, message: String, lineno: usize, start: usize, end: usize) -> (r: CompileError)
        ensures
            r.kind == kind,
            r.message@ == message@,
            r.lineno == lineno,
            r.start == start,
            r.end == end,
    {
        CompileError { kind, message, lineno, start, end }
    }

    /// The exit code the driver terminates with.
    pub fn exit_code(&self) -> (r: i32)
        ensures
            r == exit_code_of(self.kind),
    {
        match self.kind {
            ErrorKind::Parse => 2,
            _ => 1,
        }
    }
}

} // verus!
