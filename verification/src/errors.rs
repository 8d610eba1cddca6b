//! The errors the macro reports, each at a span of its input.

use vstd::prelude::*;

verus! {

/// What went wrong.
#[derive(Clone, Copy, Debug, PartialEq, Eq, Structural)]
pub enum ErrorKind {
    /// An attribute stands where none is allowed.
    NoAttributes,
    /// The scrutinee or an arm's pattern is not `..`.
    ExpectedRest,
    /// The `_` arm has a guard.
    NoGuard,
    /// A `..` arm has no `if let` guard.
    ExpectedIfLet,
    /// A leading word other than `biased` is followed by a comma.
    ExpectedBiased,
}

/// The text of each error.
pub open spec fn message_spec(kind: ErrorKind) -> Seq<char> {
    match kind {
        ErrorKind::NoAttributes => "no attributes expected"@,
        ErrorKind::ExpectedRest => "expected `..`"@,
        ErrorKind::NoGuard => "no guard expected"@,
        ErrorKind::ExpectedIfLet => "expected `if let` guard after pattern"@,
        ErrorKind::ExpectedBiased => "expected `biased`"@,
    }
}

impl ErrorKind {
    /// The message reported for this error.
    pub fn message(&self) -> (r: &'static str)
        ensures
            r@ == message_spec(*self),
    {
        match self {
            ErrorKind::NoAttributes => "no attributes expected",
            ErrorKind::ExpectedRest => "expected `..`",
            ErrorKind::NoGuard => "no guard expected",
            ErrorKind::ExpectedIfLet => "expected `if let` guard after pattern",
            ErrorKind::ExpectedBiased => "expected `biased`",
        }
    }
}

/// An error of a given kind at a span of the input.
#[derive(Clone, Copy, Debug)]
pub struct MacroError {
    pub kind: ErrorKind,
    pub span: proc_macro2::Span,
}

/// The error of `kind` at `span`.
pub open spec fn error_at(kind: ErrorKind, span: proc_macro2::Span) -> MacroError {
    MacroError { kind, span }
}

/// Reads the optional leading `<word>,` of the input: `None` when the input
/// does not start with an identifier followed by a comma, else that
/// identifier's text and span. Only `biased` is accepted there.
pub fn biased_prefix(word: Option<(String, proc_macro2::Span)>) -> (r: Result<bool, MacroError>)
    ensures
        match word {
            None => r == Ok::<bool, MacroError>(false),
            Some((w, s)) => if w@ == "biased"@ {
                r == Ok::<bool, MacroError>(true)
            } else {
                r == Err::<bool, MacroError>(error_at(ErrorKind::ExpectedBiased, s))
            },
        },
{
    match word {
        None => Ok(false),
        Some((w, s)) => {
            let keyword = "biased".to_owned();
            if w == keyword {
                Ok(true)
            } else {
                Err(MacroError { kind: ErrorKind::ExpectedBiased, span: s })
            }
        },
    }
}

} // verus!
