//! The state that one script run threads through its statements.
use crate::exit_code::ExitCode;
use crate::vars::VarMap;
use vstd::prelude::*;

verus! {

/// Shell-local variables, and the status to exit with once `exit` or `exec` ran.
#[derive(Clone, Debug)]
pub struct ShellContext {
    pub variables: VarMap,
    pub do_exit_with: Option<ExitCode>,
}

impl ShellContext {
    /// A context with no variables and no pending exit.
    pub fn new() -> (r: ShellContext)
        ensures
            r.variables.wf(),
            r.variables@ == Map::<Seq<char>, Seq<char>>::empty(),
            r.do_exit_with is None,
    {
        ShellContext { variables: VarMap::new(), do_exit_with: None }
    }
}

} // verus!
