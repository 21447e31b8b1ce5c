//! Error types of the three pipeline stages (lexing, parsing, running) and
//! the error that unites them.
//!
//! Each error has a mathematical view (`SLexError`, `SParseError`,
//! `SRuntimeError`) in which text is a `Seq<char>`, and a `message` method
//! that renders the human-readable text; its contract gives that text
//! exactly.

use crate::text::{decimal, push_char, u64_to_decimal};
use vstd::prelude::*;

verus! {

// ─── Lexical errors ──────────────────────────────────────────

/// An error found while splitting source text into tokens.
#[derive(Debug, Clone)]
pub enum LexError {
    UnexpectedChar { ch: char, line: usize, col: usize },
    UnterminatedString { line: usize },
    InvalidNumber { src: String, line: usize, col: usize },
}

/// The view of a [`LexError`].
pub enum SLexError {
    UnexpectedChar { ch: char, line: usize, col: usize },
    UnterminatedString { line: usize },
    InvalidNumber { src: Seq<char>, line: usize, col: usize },
}

impl View for LexError {
    type V = SLexError;

    open spec fn view(&self) -> SLexError {
        match self {
            LexError::UnexpectedChar { ch, line, col } => SLexError::UnexpectedChar {
                ch: *ch,
                line: *line,
                col: *col,
            },
            LexError::UnterminatedString { line } => SLexError::UnterminatedString { line: *line },
            LexError::InvalidNumber { src, line, col } => SLexError::InvalidNumber {
                src: src@,
                line: *line,
                col: *col,
            },
        }
    }
}

/// The text of a lexical error.
pub open spec fn lex_error_text(e: SLexError) -> Seq<char> {
    match e {
        SLexError::UnexpectedChar { ch, line, col } => "Lex error at "@ + decimal(line as nat)
            + ":"@ + decimal(col as nat) + ": unexpected character '"@ + seq![ch] + "'"@,
        SLexError::UnterminatedString { line } => "Lex error at line "@ + decimal(line as nat)
            + ": unterminated string literal"@,
        SLexError::InvalidNumber { src, line, col } => "Lex error at "@ + decimal(line as nat)
            + ":"@ + decimal(col as nat) + ": invalid number '"@ + src + "'"@,
    }
}

/// Appends the decimal rendering of `n` to `s`.
pub fn append_usize(s: &mut String, n: usize)
    ensures
        final(s)@ == old(s)@ + decimal(n as nat),
{
    let d = u64_to_decimal(n as u64);
    s.append(d.as_str());
}

impl LexError {
    /// The human-readable text of this error.
    pub fn message(&self) -> (r: String)
        ensures
            r@ == lex_error_text(self@),
    {
        let mut s = String::new();
        match self {
            LexError::UnexpectedChar { ch, line, col } => {
                s.append("Lex error at ");
                append_usize(&mut s, *line);
                s.append(":");
                append_usize(&mut s, *col);
                s.append(": unexpected character '");
                push_char(&mut s, *ch);
                s.append("'");
            },
            LexError::UnterminatedString { line } => {
                s.append("Lex error at line ");
                append_usize(&mut s, *line);
                s.append(": unterminated string literal");
            },
            LexError::InvalidNumber { src, line, col } => {
                s.append("Lex error at ");
                append_usize(&mut s, *line);
                s.append(":");
                append_usize(&mut s, *col);
                s.append(": invalid number '");
                s.append(src.as_str());
                s.append("'");
            },
        }
        assert(s@ =~= lex_error_text(self@));
        s
    }
}

// ─── Syntax errors ───────────────────────────────────────────

/// An error found while building the syntax tree.
#[derive(Debug, Clone)]
pub struct ParseError {
    pub msg: String,
    pub line: usize,
    pub col: usize,
}

/// The view of a [`ParseError`].
pub struct SParseError {
    pub msg: Seq<char>,
    pub line: usize,
    pub col: usize,
}

impl View for ParseError {
    type V = SParseError;

    open spec fn view(&self) -> SParseError {
        SParseError { msg: self.msg@, line: self.line, col: self.col }
    }
}

/// The text of a syntax error.
pub open spec fn parse_error_text(e: SParseError) -> Seq<char> {
    "Parse error at "@ + decimal(e.line as nat) + ":"@ + decimal(e.col as nat) + ": "@ + e.msg
}

impl ParseError {
    /// The human-readable text of this error.
    pub fn message(&self) -> (r: String)
        ensures
            r@ == parse_error_text(self@),
    {
        let mut s = String::new();
        s.append("Parse error at ");
        append_usize(&mut s, self.line);
        s.append(":");
        append_usize(&mut s, self.col);
        s.append(": ");
        s.append(self.msg.as_str());
        assert(s@ =~= parse_error_text(self@));
        s
    }
}

// ─── Runtime errors ──────────────────────────────────────────

/// An error raised while running a program.
///
/// `StepLimitExceeded` is raised when evaluation exhausts its step budget;
/// the public entry points start from the largest budget an `u64` holds,
/// so a running program meets it only after some 10^19 nested steps or
/// loop rounds.
#[derive(Debug, Clone, PartialEq)]
pub enum RuntimeError {
    UndefinedVar(String),
    UndefinedFunc(String),
    TypeError { msg: String },
    DivisionByZero,
    IndexError { msg: String },
    ArgCountMismatch { expected: usize, got: usize },
    NotIndexable,
    NotIterable,
    NotCallable,
    InvalidBreak,
    InvalidContinue,
    ReassignConst(String),
    StepLimitExceeded,
}

/// The view of a [`RuntimeError`].
pub enum SRuntimeError {
    UndefinedVar(Seq<char>),
    UndefinedFunc(Seq<char>),
    TypeError { msg: Seq<char> },
    DivisionByZero,
    IndexError { msg: Seq<char> },
    ArgCountMismatch { expected: usize, got: usize },
    NotIndexable,
    NotIterable,
    NotCallable,
    InvalidBreak,
    InvalidContinue,
    ReassignConst(Seq<char>),
    StepLimitExceeded,
}

impl View for RuntimeError {
    type V = SRuntimeError;

    open spec fn view(&self) -> SRuntimeError {
        match self {
            RuntimeError::UndefinedVar(n) => SRuntimeError::UndefinedVar(n@),
            RuntimeError::UndefinedFunc(n) => SRuntimeError::UndefinedFunc(n@),
            RuntimeError::TypeError { msg } => SRuntimeError::TypeError { msg: msg@ },
            RuntimeError::DivisionByZero => SRuntimeError::DivisionByZero,
            RuntimeError::IndexError { msg } => SRuntimeError::IndexError { msg: msg@ },
            RuntimeError::ArgCountMismatch { expected, got } => SRuntimeError::ArgCountMismatch {
                expected: *expected,
                got: *got,
            },
            RuntimeError::NotIndexable => SRuntimeError::NotIndexable,
            RuntimeError::NotIterable => SRuntimeError::NotIterable,
            RuntimeError::NotCallable => SRuntimeError::NotCallable,
            RuntimeError::InvalidBreak => SRuntimeError::InvalidBreak,
            RuntimeError::InvalidContinue => SRuntimeError::InvalidContinue,
            RuntimeError::ReassignConst(n) => SRuntimeError::ReassignConst(n@),
            RuntimeError::StepLimitExceeded => SRuntimeError::StepLimitExceeded,
        }
    }
}

/// The text of a runtime error.
pub open spec fn runtime_error_text(e: SRuntimeError) -> Seq<char> {
    match e {
        SRuntimeError::UndefinedVar(n) => "Runtime error: undefined variable '"@ + n + "'"@,
        SRuntimeError::UndefinedFunc(n) => "Runtime error: undefined function '"@ + n + "'"@,
        SRuntimeError::TypeError { msg } => "Runtime error: type error: "@ + msg,
        SRuntimeError::DivisionByZero => "Runtime error: division by zero"@,
        SRuntimeError::IndexError { msg } => "Runtime error: index error: "@ + msg,
        SRuntimeError::ArgCountMismatch { expected, got } => "Runtime error: expected "@
            + decimal(expected as nat) + " argument(s), got "@ + decimal(got as nat),
        SRuntimeError::NotIndexable => "Runtime error: this value is not indexable"@,
        SRuntimeError::NotIterable => "Runtime error: this value is not iterable"@,
        SRuntimeError::NotCallable => "Runtime error: this value is not callable"@,
        SRuntimeError::InvalidBreak => "Runtime error: 'break' outside of a loop"@,
        SRuntimeError::InvalidContinue => "Runtime error: 'continue' outside of a loop"@,
        SRuntimeError::ReassignConst(n) => "Runtime error: cannot reassign const '"@ + n + "'"@,
        SRuntimeError::StepLimitExceeded => "Runtime error: step limit exceeded"@,
    }
}

impl RuntimeError {
    /// The human-readable text of this error.
    pub fn message(&self) -> (r: String)
        ensures
            r@ == runtime_error_text(self@),
    {
        let mut s = String::new();
        match self {
            RuntimeError::UndefinedVar(n) => {
                s.append("Runtime error: undefined variable '");
                s.append(n.as_str());
                s.append("'");
            },
            RuntimeError::UndefinedFunc(n) => {
                s.append("Runtime error: undefined function '");
                s.append(n.as_str());
                s.append("'");
            },
            RuntimeError::TypeError { msg } => {
                s.append("Runtime error: type error: ");
                s.append(msg.as_str());
            },
            RuntimeError::DivisionByZero => {
                s.append("Runtime error: division by zero");
            },
            RuntimeError::IndexError { msg } => {
                s.append("Runtime error: index error: ");
                s.append(msg.as_str());
            },
            RuntimeError::ArgCountMismatch { expected, got } => {
                s.append("Runtime error: expected ");
                append_usize(&mut s, *expected);
                s.append(" argument(s), got ");
                append_usize(&mut s, *got);
            },
            RuntimeError::NotIndexable => {
                s.append("Runtime error: this value is not indexable");
            },
            RuntimeError::NotIterable => {
                s.append("Runtime error: this value is not iterable");
            },
            RuntimeError::NotCallable => {
                s.append("Runtime error: this value is not callable");
            },
            RuntimeError::InvalidBreak => {
                s.append("Runtime error: 'break' outside of a loop");
            },
            RuntimeError::InvalidContinue => {
                s.append("Runtime error: 'continue' outside of a loop");
            },
            RuntimeError::ReassignConst(n) => {
                s.append("Runtime error: cannot reassign const '");
                s.append(n.as_str());
                s.append("'");
            },
            RuntimeError::StepLimitExceeded => {
                s.append("Runtime error: step limit exceeded");
            },
        }
        assert(s@ =~= runtime_error_text(self@));
        s
    }
}

// ─── The united error ────────────────────────────────────────

/// An error from any stage of the pipeline.
#[derive(Debug)]
pub enum MiniError {
    Lex(LexError),
    Parse(ParseError),
    Runtime(RuntimeError),
}

/// The view of a [`MiniError`].
pub enum SMiniError {
    Lex(SLexError),
    Parse(SParseError),
    Runtime(SRuntimeError),
}

impl View for MiniError {
    type V = SMiniError;

    open spec fn view(&self) -> SMiniError {
        match self {
            MiniError::Lex(e) => SMiniError::Lex(e@),
            MiniError::Parse(e) => SMiniError::Parse(e@),
            MiniError::Runtime(e) => SMiniError::Runtime(e@),
        }
    }
}

/// The text of an error of any stage: that of the stage's error.
pub open spec fn mini_error_text(e: SMiniError) -> Seq<char> {
    match e {
        SMiniError::Lex(e) => lex_error_text(e),
        SMiniError::Parse(e) => parse_error_text(e),
        SMiniError::Runtime(e) => runtime_error_text(e),
    }
}

impl MiniError {
    /// The human-readable text of this error.
    pub fn message(&self) -> (r: String)
        ensures
            r@ == mini_error_text(self@),
    {
        match self {
            MiniError::Lex(e) => e.message(),
            MiniError::Parse(e) => e.message(),
            MiniError::Runtime(e) => e.message(),
        }
    }
}

impl From<LexError> for MiniError {
    fn from(e: LexError) -> (r: Self) {
        MiniError::Lex(e)
    }
}

impl vstd::std_specs::convert::FromSpecImpl<LexError> for MiniError {
    open spec fn obeys_from_spec() -> bool {
        true
    }

    open spec fn from_spec(e: LexError) -> MiniError {
        MiniError::Lex(e)
    }
}

impl From<ParseError> for MiniError {
    fn from(e: ParseError) -> (r: Self) {
        MiniError::Parse(e)
    }
}

impl vstd::std_specs::convert::FromSpecImpl<ParseError> for MiniError {
    open spec fn obeys_from_spec() -> bool {
        true
    }

    open spec fn from_spec(e: ParseError) -> MiniError {
        MiniError::Parse(e)
    }
}

impl From<RuntimeError> for MiniError {
    fn from(e: RuntimeError) -> (r: Self) {
        MiniError::Runtime(e)
    }
}

impl vstd::std_specs::convert::FromSpecImpl<RuntimeError> for MiniError {
    open spec fn obeys_from_spec() -> bool {
        true
    }

    open spec fn from_spec(e: RuntimeError) -> MiniError {
        MiniError::Runtime(e)
    }
}

} // verus!
