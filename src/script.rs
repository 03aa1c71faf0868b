//! What a script runner and the interactive shell do after each statement
//! or line: go on, or stop with a status or an error.
use crate::error::ShellError;
use crate::exit_code::ExitCode;
use crate::iter::ExtendableIterator;
use crate::lexer::{is_space, is_white_space, skip_line, take_until};
use crate::text::chars_of;
use vstd::prelude::*;

verus! {

/// How a statement of a script ended.
#[derive(Clone, Copy, Debug, PartialEq, Eq, Structural)]
pub enum StatementEnd {
    /// It had no tokens.
    Empty,
    /// It ran and ended with a status.
    Done(ExitCode),
    /// It could not be tokenized, parsed or run.
    Failed,
    /// It was interrupted.
    Interrupted,
}

/// What the script runner does next.
#[derive(Clone, Copy, Debug)]
pub enum ScriptStep {
    /// Run the next statement; the script's status so far.
    Next(ExitCode),
    /// The script ends with this result.
    Return(Result<ExitCode, ShellError>),
}

/// After a statement: an interrupt ends the script with `INTERRUPT`; else a
/// pending exit ends it with its status; else the script goes on, its status
/// that of the statement (failure for one that failed, unchanged for an
/// empty one). The first part of the result says whether the statement's
/// error is to be printed.
pub fn after_statement(last: ExitCode, end: StatementEnd, exit_with: Option<ExitCode>) -> (r: (bool, ScriptStep))
    ensures
        r.0 == (end == StatementEnd::Failed),
        end == StatementEnd::Interrupted ==> r.1 == ScriptStep::Return(Err(ShellError::Interrupt)),
        end != StatementEnd::Interrupted && exit_with is Some ==> r.1 == ScriptStep::Return(Ok(exit_with->0)),
        end != StatementEnd::Interrupted && exit_with is None ==> r.1 == ScriptStep::Next(
            match end {
                StatementEnd::Done(c) => c,
                StatementEnd::Failed => ExitCode::Failure(1),
                _ => last,
            },
        ),
{
    let print = match end {
        StatementEnd::Failed => true,
        _ => false,
    };
    if let StatementEnd::Interrupted = end {
        return (print, ScriptStep::Return(Err(ShellError::Interrupt)));
    }
    if let Some(code) = exit_with {
        return (print, ScriptStep::Return(Ok(code)));
    }
    let status = match end {
        StatementEnd::Done(c) => c,
        StatementEnd::Failed => ExitCode::failure(),
        _ => last,
    };
    (print, ScriptStep::Next(status))
}

/// Drops the rest of a line that failed to tokenize, its line feed included.
pub fn drop_line(source: &mut ExtendableIterator<char>)
    ensures
        final(source)@ == skip_line(old(source)@),
{
    let _ = take_until(source, '\n');
}

/// How reading and running one line of the interactive shell ended.
#[derive(Clone, Copy, Debug, PartialEq, Eq, Structural)]
pub enum LineEnd {
    /// Reading the line failed.
    ReadFailed,
    /// Reading the line was interrupted.
    ReadAborted,
    /// The line was blank.
    Blank,
    /// The line ran; whether it ended in an error.
    Ran(bool),
}

/// What the interactive shell shows before going on.
#[derive(Clone, Copy, Debug, PartialEq, Eq, Structural)]
pub enum Notice {
    Nothing,
    /// A line feed and the read error.
    ReadError,
    /// A line feed, after an interrupted read.
    NewLine,
    /// The line's error.
    Error,
}

/// What the interactive shell does next.
#[derive(Clone, Copy, Debug, PartialEq, Eq, Structural)]
pub enum LineAction {
    /// Read the next line.
    Continue,
    /// Leave with this status.
    Exit(ExitCode),
}

/// After a line: a failed or interrupted read is reported and the shell
/// reads on; a blank line is skipped; a line that ran has its error shown,
/// and then a pending exit ends the shell.
pub fn after_line(end: LineEnd, exit_with: Option<ExitCode>) -> (r: (Notice, LineAction))
    ensures
        end == LineEnd::ReadFailed ==> r == (Notice::ReadError, LineAction::Continue),
        end == LineEnd::ReadAborted ==> r == (Notice::NewLine, LineAction::Continue),
        end == LineEnd::Blank ==> r == (Notice::Nothing, LineAction::Continue),
        end is Ran ==> r.0 == (if end->Ran_0 { Notice::Error } else { Notice::Nothing }) && r.1 == match exit_with {
            Some(c) => LineAction::Exit(c),
            None => LineAction::Continue,
        },
{
    match end {
        LineEnd::ReadFailed => (Notice::ReadError, LineAction::Continue),
        LineEnd::ReadAborted => (Notice::NewLine, LineAction::Continue),
        LineEnd::Blank => (Notice::Nothing, LineAction::Continue),
        LineEnd::Ran(failed) => {
            let notice = if failed { Notice::Error } else { Notice::Nothing };
            match exit_with {
                Some(c) => (notice, LineAction::Exit(c)),
                None => (notice, LineAction::Continue),
            }
        },
    }
}

/// Whether a line holds only white space, as `str::trim` sees it.
pub fn is_blank(line: &str) -> (r: bool)
    ensures
        r == (forall|i: int| 0 <= i < line@.len() ==> is_space(#[trigger] line@[i])),
{
    let cs = chars_of(line);
    let mut i: usize = 0;
    while i < cs.len()
        invariant
            i <= cs@.len(),
            cs@ == line@,
            forall|j: int| 0 <= j < i ==> is_space(#[trigger] line@[j]),
        decreases cs@.len() - i,
    {
        if !is_white_space(cs[i]) {
            return false;
        }
        i = i + 1;
    }
    true
}

} // verus!
