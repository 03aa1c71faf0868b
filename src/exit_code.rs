//! The status a command finishes with.
use vstd::prelude::*;

verus! {

/// Value returned from a command: success, or failure with a nonzero code.
#[derive(Copy, Clone, Debug, PartialEq, Eq, Structural)]
pub enum ExitCode {
    Success,
    Failure(u8),
}

impl ExitCode {
    /// The exit code success.
    pub const SUCCESS: ExitCode = ExitCode::Success;

    /// The generic failure, with code 1.
    pub fn failure() -> (r: ExitCode)
        ensures
            r == ExitCode::Failure(1),
    {
        ExitCode::Failure(1)
    }

    /// A failure carries a nonzero code.
    pub open spec fn wf(self) -> bool {
        match self {
            ExitCode::Success => true,
            ExitCode::Failure(c) => c != 0,
        }
    }

    /// The raw byte of this status.
    pub open spec fn spec_code(self) -> u8 {
        match self {
            ExitCode::Success => 0,
            ExitCode::Failure(c) => c,
        }
    }

    /// The status that a raw byte stands for.
    pub open spec fn spec_from_code(code: u8) -> ExitCode {
        if code == 0 {
            ExitCode::Success
        } else {
            ExitCode::Failure(code)
        }
    }

    /// The status for a raw byte: zero is success, anything else a failure.
    pub fn from_code(code: u8) -> (r: ExitCode)
        ensures
            r == ExitCode::spec_from_code(code),
            r.wf(),
            r.spec_code() == code,
    {
        if code == 0 {
            ExitCode::Success
        } else {
            ExitCode::Failure(code)
        }
    }

    /// The raw byte of this status.
    pub fn code(&self) -> (r: u8)
        ensures
            r == self.spec_code(),
            self.wf() ==> ExitCode::spec_from_code(r) == *self,
    {
        match self {
            ExitCode::Success => 0,
            ExitCode::Failure(c) => *c,
        }
    }

    /// Returns true if this is a success variant.
    pub fn is_success(&self) -> (r: bool)
        ensures
            r == (*self == ExitCode::Success),
    {
        matches!(self, ExitCode::Success)
    }

    /// Returns true if this is a failure variant.
    pub fn is_failure(&self) -> (r: bool)
        ensures
            r == (*self is Failure),
            r == !(*self == ExitCode::Success),
    {
        matches!(self, ExitCode::Failure(_))
    }
}

impl Default for ExitCode {
    fn default() -> (r: ExitCode)
        ensures
            r == ExitCode::Success,
    {
        ExitCode::Success
    }
}

impl From<u8> for ExitCode {
    fn from(code: u8) -> (r: ExitCode) {
        ExitCode::from_code(code)
    }
}

impl vstd::std_specs::convert::FromSpecImpl<u8> for ExitCode {
    open spec fn obeys_from_spec() -> bool {
        true
    }

    open spec fn from_spec(code: u8) -> ExitCode {
        ExitCode::spec_from_code(code)
    }
}

/// Converting a raw byte to a status and back gives the byte again.
pub proof fn lemma_code_round_trip(code: u8)
    ensures
        ExitCode::spec_from_code(code).spec_code() == code,
        ExitCode::spec_from_code(code).wf(),
{
}

} // verus!
