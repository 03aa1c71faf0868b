//! The decisions that running a syntax tree takes: which command a word
//! names, whether the right side of `&&`/`||` runs, how a redirect opens its
//! file, and how an interrupted statement ends.
use crate::error::ShellError;
use crate::exit_code::ExitCode;
use crate::text::same_text;
use vstd::prelude::*;

verus! {

/// The commands that run inside the shell itself, because they change its state.
#[derive(Clone, Copy, Debug, PartialEq, Eq, Structural)]
pub enum Builtin {
    Cd,
    Env,
    Export,
    Read,
    Exit,
    Exec,
    Source,
    True,
    False,
}

/// What the first word of a command selects.
#[derive(Clone, Copy, Debug, PartialEq, Eq, Structural)]
pub enum CommandKind {
    Builtin(Builtin),
    /// A program found by name, run in a copy of the process.
    Program,
}

/// The builtin that a name selects, if any; `.` is `source`.
pub open spec fn builtin_of(name: Seq<char>) -> Option<Builtin> {
    if name == seq!['c', 'd'] {
        Some(Builtin::Cd)
    } else if name == seq!['e', 'n', 'v'] {
        Some(Builtin::Env)
    } else if name == seq!['e', 'x', 'p', 'o', 'r', 't'] {
        Some(Builtin::Export)
    } else if name == seq!['r', 'e', 'a', 'd'] {
        Some(Builtin::Read)
    } else if name == seq!['e', 'x', 'i', 't'] {
        Some(Builtin::Exit)
    } else if name == seq!['e', 'x', 'e', 'c'] {
        Some(Builtin::Exec)
    } else if name == seq!['s', 'o', 'u', 'r', 'c', 'e'] || name == seq!['.'] {
        Some(Builtin::Source)
    } else if name == seq!['t', 'r', 'u', 'e'] {
        Some(Builtin::True)
    } else if name == seq!['f', 'a', 'l', 's', 'e'] {
        Some(Builtin::False)
    } else {
        None
    }
}

/// The builtin that `name` selects, if any.
pub fn builtin_named(name: &str) -> (r: Option<Builtin>)
    ensures
        r == builtin_of(name@),
{
    proof {
        reveal_strlit("cd");
        reveal_strlit("env");
        reveal_strlit("export");
        reveal_strlit("read");
        reveal_strlit("exit");
        reveal_strlit("exec");
        reveal_strlit("source");
        reveal_strlit(".");
        reveal_strlit("true");
        reveal_strlit("false");
        assert("cd"@ =~= seq!['c', 'd']);
        assert("env"@ =~= seq!['e', 'n', 'v']);
        assert("export"@ =~= seq!['e', 'x', 'p', 'o', 'r', 't']);
        assert("read"@ =~= seq!['r', 'e', 'a', 'd']);
        assert("exit"@ =~= seq!['e', 'x', 'i', 't']);
        assert("exec"@ =~= seq!['e', 'x', 'e', 'c']);
        assert("source"@ =~= seq!['s', 'o', 'u', 'r', 'c', 'e']);
        assert("."@ =~= seq!['.']);
        assert("true"@ =~= seq!['t', 'r', 'u', 'e']);
        assert("false"@ =~= seq!['f', 'a', 'l', 's', 'e']);
    }
    if same_text(name, "cd") {
        Some(Builtin::Cd)
    } else if same_text(name, "env") {
        Some(Builtin::Env)
    } else if same_text(name, "export") {
        Some(Builtin::Export)
    } else if same_text(name, "read") {
        Some(Builtin::Read)
    } else if same_text(name, "exit") {
        Some(Builtin::Exit)
    } else if same_text(name, "exec") {
        Some(Builtin::Exec)
    } else if same_text(name, "source") {
        Some(Builtin::Source)
    } else if same_text(name, ".") {
        Some(Builtin::Source)
    } else if same_text(name, "true") {
        Some(Builtin::True)
    } else if same_text(name, "false") {
        Some(Builtin::False)
    } else {
        None
    }
}

/// The names of the builtins that change the shell's state, as offered
/// for completion.
pub fn shell_commands() -> (r: Vec<&'static str>)
    ensures
        r@.len() == 7,
        forall|i: int| 0 <= i < r@.len() ==> (builtin_of(#[trigger] r@[i]@) is Some),
{
    proof {
        reveal_strlit("cd");
        reveal_strlit("env");
        reveal_strlit("export");
        reveal_strlit("read");
        reveal_strlit("exit");
        reveal_strlit("exec");
        reveal_strlit("source");
    }
    let r = vec!["cd", "env", "export", "read", "exit", "exec", "source"];
    assert(r@[0]@ =~= seq!['c', 'd']);
    assert(r@[1]@ =~= seq!['e', 'n', 'v']);
    assert(r@[2]@ =~= seq!['e', 'x', 'p', 'o', 'r', 't']);
    assert(r@[3]@ =~= seq!['r', 'e', 'a', 'd']);
    assert(r@[4]@ =~= seq!['e', 'x', 'i', 't']);
    assert(r@[5]@ =~= seq!['e', 'x', 'e', 'c']);
    assert(r@[6]@ =~= seq!['s', 'o', 'u', 'r', 'c', 'e']);
    assert forall|i: int| 0 <= i < r@.len() implies (builtin_of(#[trigger] r@[i]@) is Some) by {
        assert(0 <= i < 7);
    }
    r
}

/// What a command's words select: a builtin by its first word, else a
/// program. A command with no words is a syntax error.
pub fn classify(args: &Vec<String>) -> (r: Result<CommandKind, ShellError>)
    ensures
        args@.len() == 0 ==> r == Err::<CommandKind, ShellError>(ShellError::EmptyCommand),
        args@.len() > 0 ==> r == Ok::<CommandKind, ShellError>(
            match builtin_of(args@[0]@) {
                Some(b) => CommandKind::Builtin(b),
                None => CommandKind::Program,
            },
        ),
{
    if args.len() == 0 {
        return Err(ShellError::EmptyCommand);
    }
    match builtin_named(args[0].as_str()) {
        Some(b) => Ok(CommandKind::Builtin(b)),
        None => Ok(CommandKind::Program),
    }
}

/// The status of a builtin that only reports one: `true` and `false`.
pub fn constant_status(b: Builtin) -> (r: Option<ExitCode>)
    ensures
        b == Builtin::True ==> r == Some(ExitCode::Success),
        b == Builtin::False ==> r == Some(ExitCode::Failure(1)),
        b != Builtin::True && b != Builtin::False ==> r is None,
{
    match b {
        Builtin::True => Some(ExitCode::Success),
        Builtin::False => Some(ExitCode::failure()),
        _ => None,
    }
}

/// The two ways of chaining statements.
#[derive(Clone, Copy, Debug, PartialEq, Eq, Structural)]
pub enum Chain {
    And,
    Or,
}

/// Whether the right side of a chain runs after the left side ended with
/// `lhs`: after success for `&&`, after failure for `||`. Otherwise the chain
/// ends with `lhs`.
pub fn runs_rhs(chain: Chain, lhs: ExitCode) -> (r: bool)
    ensures
        chain == Chain::And ==> r == (lhs == ExitCode::Success),
        chain == Chain::Or ==> r == (lhs != ExitCode::Success),
{
    match chain {
        Chain::And => lhs.is_success(),
        Chain::Or => lhs.is_failure(),
    }
}

/// Whether an output redirect appends: only when asked to and the file exists;
/// otherwise the file is created anew.
pub fn appends(append: bool, exists: bool) -> (r: bool)
    ensures
        r == (append && exists),
{
    append && exists
}

/// How a statement that can be interrupted ended.
#[derive(Debug)]
pub enum AbortableResult<T, E> {
    Completed(Result<T, E>),
    Aborted,
}

impl<T, E> AbortableResult<T, E> {
    /// The result; an interruption is the error `interrupted` (the shell
    /// reports it as `INTERRUPT`).
    pub fn fail_if_aborted(self, interrupted: E) -> (r: Result<T, E>)
        ensures
            match self {
                AbortableResult::Completed(x) => r == x,
                AbortableResult::Aborted => r == Err::<T, E>(interrupted),
            },
    {
        match self {
            AbortableResult::Completed(result) => result,
            AbortableResult::Aborted => Err(interrupted),
        }
    }

    /// The result; an interruption gives `value` instead.
    pub fn completed_or(self, value: Result<T, E>) -> (r: Result<T, E>)
        ensures
            match self {
                AbortableResult::Completed(x) => r == x,
                AbortableResult::Aborted => r == value,
            },
    {
        match self {
            AbortableResult::Completed(result) => result,
            AbortableResult::Aborted => value,
        }
    }
}

/// The outcome after the abort signal arrives: aborted, unless the
/// statement had already finished.
pub open spec fn after_abort<T, E>(d: Option<AbortableResult<T, E>>) -> Option<AbortableResult<T, E>> {
    match d {
        None => Some(AbortableResult::Aborted),
        Some(x) => Some(x),
    }
}

/// The outcome after the statement finishes with `result`: that result,
/// unless the abort signal came first.
pub open spec fn after_finish<T, E>(d: Option<AbortableResult<T, E>>, result: Result<T, E>) -> Option<AbortableResult<T, E>> {
    match d {
        None => Some(AbortableResult::Completed(result)),
        Some(x) => Some(x),
    }
}

/// The race between a statement finishing and its abort signal: the first
/// of the two decides the outcome, and the later one is ignored.
pub struct AbortRace<T, E> {
    outcome: Option<AbortableResult<T, E>>,
}

impl<T, E> AbortRace<T, E> {
    /// Whether one side has won, and which.
    pub closed spec fn decided(&self) -> Option<AbortableResult<T, E>> {
        self.outcome
    }

    /// A race that nothing has decided yet.
    pub fn new() -> (r: Self)
        ensures
            r.decided() is None,
    {
        AbortRace { outcome: None }
    }

    /// The abort signal arrived.
    pub fn abort(&mut self)
        ensures
            final(self).decided() == after_abort(old(self).decided()),
    {
        if self.outcome.is_none() {
            self.outcome = Some(AbortableResult::Aborted);
        }
    }

    /// The statement finished with `result`.
    pub fn finish(&mut self, result: Result<T, E>)
        ensures
            final(self).decided() == after_finish(old(self).decided(), result),
    {
        if self.outcome.is_none() {
            self.outcome = Some(AbortableResult::Completed(result));
        }
    }

    /// The outcome, once one side has won.
    pub fn outcome(self) -> (r: Option<AbortableResult<T, E>>)
        ensures
            r == self.decided(),
    {
        self.outcome
    }
}

/// An interrupt that fires while the statement is in flight makes it end
/// as aborted, whatever it finishes with afterwards; a statement that
/// finished first keeps its result when the interrupt comes later.
pub proof fn lemma_first_signal_decides<T, E>(result: Result<T, E>)
    ensures
        after_finish(after_abort(None::<AbortableResult<T, E>>), result) == Some(AbortableResult::<T, E>::Aborted),
        after_abort(after_finish(None::<AbortableResult<T, E>>, result)) == Some(AbortableResult::<T, E>::Completed(result)),
{
}

} // verus!
