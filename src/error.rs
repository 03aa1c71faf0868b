//! The errors of the shell engine.
use vstd::prelude::*;

verus! {

/// Why a script could not be tokenized, parsed or run.
#[derive(Clone, Copy, Debug, PartialEq, Eq, Structural)]
pub enum ShellError {
    /// A quote was opened and never closed.
    MismatchedQuote,
    /// `||` where the character before was not a pipe.
    UnexpectedPipe,
    /// `>>` where the character before was not a redirect.
    UnexpectedRedirect,
    /// A single `&`.
    BackgroundTask,
    /// `$` at the end of the input.
    NoIdentifier,
    /// `$` followed by something other than `{` or `(`.
    UnsupportedExpansion,
    /// `${` or `$(` without its closing brace.
    BraceMismatch,
    /// A word after a redirect target, where the redirected part is no command.
    RedirectLhsNotCommand,
    /// A redirect without a file to redirect to.
    MissingRedirectTarget,
    /// A command with no words.
    EmptyCommand,
    /// A builtin was given arguments it does not take.
    Usage,
    /// `cd -` while `OLDPWD` is unset.
    OldPwdUnset,
    /// An expansion longer than the machine can count.
    ExpansionTooLong,
    /// The statement was interrupted.
    Interrupt,
}

impl ShellError {
    /// The message shown for this error.
    pub fn message(&self) -> &'static str {
        match self {
            ShellError::MismatchedQuote => "Mismatched quote",
            ShellError::UnexpectedPipe => "Syntax error: Unexpected pipe",
            ShellError::UnexpectedRedirect => "Syntax error: '>' symbol unexpected here",
            ShellError::BackgroundTask => "Syntax error: Background tasks not supported",
            ShellError::NoIdentifier => "Syntax error: No identifier",
            ShellError::UnsupportedExpansion => "Currently only ${...} variables and subshells are supported",
            ShellError::BraceMismatch => "Syntax error: brace mismatch",
            ShellError::RedirectLhsNotCommand => "Syntax error: file redirect has non-command token as lhs",
            ShellError::MissingRedirectTarget => "Syntax error: redirect without a target",
            ShellError::EmptyCommand => "Syntax error: Command cannot have empty arguments",
            ShellError::Usage => "Invalid arguments",
            ShellError::OldPwdUnset => "OLDPWD not set",
            ShellError::ExpansionTooLong => "Expansion too long",
            ShellError::Interrupt => "INTERRUPT",
        }
    }
}

} // verus!
