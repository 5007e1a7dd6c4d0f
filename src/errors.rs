//! The error type of the command-line layer.
use vstd::prelude::*;

verus! {

/// `anyhow::Error`, carried through unexamined.
#[verifier::external_type_specification]
#[verifier::external_body]
pub struct ExAnyhowError(anyhow::Error);

/// An error as reported at the command line: the error to display, if any,
/// and the exit code of the process.
#[derive(Debug)]
pub struct CliError {
    /// The error to display; `None` to exit without a message.
    pub error: Option<anyhow::Error>,
    /// The process exit code.
    pub exit_code: i32,
}

} // verus!
