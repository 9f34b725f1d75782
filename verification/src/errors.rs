//! The error kinds a run can end with. They are flat: every failure keeps the
//! kind it was detected with while it bubbles up through prerequisite
//! recursion.

use vstd::prelude::*;

verus! {

/// The three ways a run can fail.
///
/// - `InvalidJob`: a requested job name (the root job or any prerequisite)
///   has no entry in the job set.
/// - `ParseError`: the configuration could not be read or parsed, or a step
///   references an undefined variable.
/// - `RuntimeError`: a step failed syntax validation or its process exited
///   with a non-zero status.
#[derive(Clone, Copy, Debug, PartialEq, Eq, Structural)]
pub enum TaruError {
    InvalidJob,
    ParseError,
    RuntimeError,
}

impl TaruError {
    /// A human-readable description of the error kind.
    pub fn message(&self) -> (r: &'static str)
        ensures
            *self is InvalidJob ==> r@ == "Invalid job"@,
            *self is ParseError ==> r@ == "Parse Error"@,
            *self is RuntimeError ==> r@ == "Runtime Error"@,
    {
        match *self {
            TaruError::InvalidJob => "Invalid job",
            TaruError::ParseError => "Parse Error",
            TaruError::RuntimeError => "Runtime Error",
        }
    }
}

} // verus!
