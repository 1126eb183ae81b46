use vstd::prelude::*;

use crate::span::Span;
use crate::text::{push_str, usize_to_string};

verus! {

/// A diagnostic produced while lexing, parsing, resolving or typechecking a program.
#[derive(Debug, Clone, PartialEq, Eq)]
pub struct CompileError {
    pub span: Span,
    pub message: String,
}

/// A failure while executing, proving or verifying a lowered circuit.
#[derive(Debug, Clone, PartialEq, Eq)]
pub struct RuntimeError {
    pub message: String,
}

pub type CompileResult<T> = Result<T, CompileError>;

pub type RuntimeResult<T> = Result<T, RuntimeError>;

impl CompileError {
    pub fn new(span: Span, message: String) -> (e: CompileError)
        ensures
            e.span == span,
            e.message@ == message@,
    {
        CompileError { span, message }
    }

    /// Renders the diagnostic as `line:column: message`.
    pub fn to_string(&self) -> (s: String)
        ensures
            s@ == crate::text::decimal(self.span.line as nat) + ":"@ + crate::text::decimal(
                self.span.column as nat,
            ) + ": "@ + self.message@,
    {
        let mut out = usize_to_string(self.span.line);
        push_str(&mut out, ":");
        let column = usize_to_string(self.span.column);
        push_str(&mut out, column.as_str());
        push_str(&mut out, ": ");
        push_str(&mut out, self.message.as_str());
        out
    }
}

impl RuntimeError {
    pub fn new(message: String) -> (e: RuntimeError)
        ensures
            e.message@ == message@,
    {
        RuntimeError { message }
    }

    pub fn to_string(&self) -> (s: String)
        ensures
            s@ == self.message@,
    {
        self.message.clone()
    }
}

} // verus!
