//! The command line of `sh`: `sh [-c COMMAND | -s FILE | SCRIPT]`.
use crate::error::ShellError;
use crate::text::same_text;
use crate::tokens::words;
use vstd::prelude::*;
use vstd::string::*;

verus! {

/// What `sh` was asked to run.
#[derive(Clone, Debug, PartialEq, Eq)]
pub enum ShMode {
    /// Run the command given with `-c`, then stop.
    Command(String),
    /// Run the script file, with the arguments after it, then stop.
    Script(String),
    /// Source the file given with `-s`, then read commands interactively.
    Source(String),
    /// Read commands interactively.
    Interactive,
}

/// The model of a mode.
pub enum ShModeView {
    Command(Seq<char>),
    Script(Seq<char>),
    Source(Seq<char>),
    Interactive,
}

impl View for ShMode {
    type V = ShModeView;

    open spec fn view(&self) -> ShModeView {
        match self {
            ShMode::Command(s) => ShModeView::Command(s@),
            ShMode::Script(s) => ShModeView::Script(s@),
            ShMode::Source(s) => ShModeView::Source(s@),
            ShMode::Interactive => ShModeView::Interactive,
        }
    }
}

/// A word that is an option flag.
pub open spec fn is_flag(w: Seq<char>) -> bool {
    w.len() > 0 && w[0] == '-'
}

/// The mode that the words after the program name select: `-c` and `-s`
/// take the next word as their value, one other word that is no flag is a
/// script (any words after it are its arguments), and no more than one of
/// the three may be given.
pub open spec fn mode_of(args: Seq<Seq<char>>) -> Option<ShModeView> {
    if args.len() <= 1 {
        Some(ShModeView::Interactive)
    } else if args[1] == seq!['-', 'c'] || args[1] == seq!['-', 's'] {
        if args.len() != 3 {
            None
        } else if args[1] == seq!['-', 'c'] {
            Some(ShModeView::Command(args[2]))
        } else {
            Some(ShModeView::Source(args[2]))
        }
    } else if is_flag(args[1]) {
        None
    } else {
        Some(ShModeView::Script(args[1]))
    }
}

/// Read the command line of `sh`, the program name first.
pub fn sh_mode(args: &Vec<String>) -> (r: Result<ShMode, ShellError>)
    ensures
        match mode_of(words(args@)) {
            Some(m) => r is Ok && r->Ok_0@ == m,
            None => r == Err::<ShMode, ShellError>(ShellError::Usage),
        },
{
    proof {
        reveal_strlit("-c");
        reveal_strlit("-s");
        assert("-c"@ =~= seq!['-', 'c']);
        assert("-s"@ =~= seq!['-', 's']);
    }
    if args.len() <= 1 {
        return Ok(ShMode::Interactive);
    }
    let is_c = same_text(args[1].as_str(), "-c");
    let is_s = same_text(args[1].as_str(), "-s");
    if is_c || is_s {
        if args.len() != 3 {
            return Err(ShellError::Usage);
        }
        let value = args[2].clone();
        return Ok(if is_c { ShMode::Command(value) } else { ShMode::Source(value) });
    }
    let first = args[1].as_str();
    if first.unicode_len() > 0 && first.get_char(0) == '-' {
        return Err(ShellError::Usage);
    }
    Ok(ShMode::Script(args[1].clone()))
}

} // verus!
