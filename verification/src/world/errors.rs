//! The world compiler's error type: a message and, where the YAML parser
//! reports one, a location.

use vstd::prelude::*;

use crate::text::{decimal, push_decimal};
use vstd::string::StringExecFns;

verus! {

/// A location in the source YAML: 1-based line and column.
#[derive(Copy, Clone, Debug, PartialEq, Eq, Structural)]
pub struct Span {
    /// 1-based line number.
    pub line: usize,
    /// 1-based column number.
    pub col: usize,
}

/// Why a world did not compile.
#[derive(Clone, Debug, PartialEq, Eq)]
pub struct CompileError {
    message: String,
    span: Option<Span>,
}

/// The error as a sentence: the message, then the location when there is
/// one.
pub open spec fn compile_error_text(message: Seq<char>, span: Option<Span>) -> Seq<char> {
    match span {
        Some(s) => message + " (line "@ + decimal(s.line as nat) + ", column "@ + decimal(s.col as nat) + ")"@,
        None => message,
    }
}

impl CompileError {
    pub closed spec fn spec_message(&self) -> Seq<char> {
        self.message@
    }

    pub closed spec fn spec_span(&self) -> Option<Span> {
        self.span
    }

    /// An error with no location: a semantic error names the offending
    /// entry in its message instead.
    pub fn new(message: String) -> (e: CompileError)
        ensures
            e.spec_message() == message@,
            e.spec_span() is None,
    {
        CompileError { message, span: None }
    }

    /// An error at a location the parser reported.
    pub fn at(message: String, line: usize, col: usize) -> (e: CompileError)
        ensures
            e.spec_message() == message@,
            e.spec_span() == Some(Span { line, col }),
    {
        CompileError { message, span: Some(Span { line, col }) }
    }

    /// The message, without any location suffix.
    pub fn message(&self) -> (r: &str)
        ensures
            r@ == self.spec_message(),
    {
        self.message.as_str()
    }

    /// The source location, when the parser reported one.
    pub fn span(&self) -> (r: Option<Span>)
        ensures
            r == self.spec_span(),
    {
        self.span
    }

    /// The error as a sentence, with its location when it has one.
    pub fn text(&self) -> (r: String)
        ensures
            r@ == compile_error_text(self.spec_message(), self.spec_span()),
    {
        let mut out = String::new();
        out.append(self.message.as_str());
        match self.span {
            Some(s) => {
                out.append(" (line ");
                push_decimal(&mut out, s.line as u64);
                out.append(", column ");
                push_decimal(&mut out, s.col as u64);
                out.append(")");
            },
            None => {},
        }
        proof {
            if self.span is None {
                assert(out@ =~= self.message@);
            }
        }
        out
    }
}

} // verus!
