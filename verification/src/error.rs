//! Why a run ends without its tickets, and what a run reports when it ends.

use vstd::prelude::*;
use vstd::string::StringExecFns;

verus! {

/// The ways in which a run can fail.
#[derive(Debug)]
pub enum RunError {
    /// The destination could not be created; `detail` is the system's text.
    CreateFile { path: String, detail: String },
    /// The document could not be written; `detail` is the writer's text.
    Write { detail: String },
    /// The alphabet and the length allow fewer different tokens than the run
    /// asks for.
    TokenSpaceExhausted,
    /// Every permitted draw gave a token that the run already holds.
    RetryLimit,
}

/// What a run reports when it has written its document.
pub const SUCCESS_MESSAGE: &'static str = "Successfully wrote to CSV";

/// What a run reports when it was asked for more tokens than there are.
pub const EXHAUSTED_MESSAGE: &'static str =
    "Exhausted token space: the alphabet and the length allow fewer tokens than requested";

/// What a run reports when it ran out of draws for one token.
pub const RETRY_MESSAGE: &'static str =
    "Exhausted the draws for one token: each gave a token that was already generated";

impl RunError {
    /// The report of a failed run.
    pub open spec fn spec_message(&self) -> Seq<char> {
        match self {
            RunError::CreateFile { path, detail } => "Failed to create file "@ + path@ + ": "@
                + detail@,
            RunError::Write { detail } => "Failed to write to file: "@ + detail@,
            RunError::TokenSpaceExhausted => EXHAUSTED_MESSAGE@,
            RunError::RetryLimit => RETRY_MESSAGE@,
        }
    }

    /// The report of a failed run.
    pub fn message(&self) -> (text: String)
        ensures
            text@ == self.spec_message(),
    {
        match self {
            RunError::CreateFile { path, detail } => {
                let mut text = String::from_str("Failed to create file ");
                text.append(path.as_str());
                text.append(": ");
                text.append(detail.as_str());
                text
            },
            RunError::Write { detail } => {
                let mut text = String::from_str("Failed to write to file: ");
                text.append(detail.as_str());
                text
            },
            RunError::TokenSpaceExhausted => String::from_str(EXHAUSTED_MESSAGE),
            RunError::RetryLimit => String::from_str(RETRY_MESSAGE),
        }
    }
}

/// The one report of a run: the success message, or the failure's text.
pub fn status_message(outcome: &Result<(), RunError>) -> (text: String)
    ensures
        text@ == (match outcome {
            Ok(()) => SUCCESS_MESSAGE@,
            Err(e) => e.spec_message(),
        }),
{
    match outcome {
        Ok(()) => String::from_str(SUCCESS_MESSAGE),
        Err(e) => e.message(),
    }
}

} // verus!
