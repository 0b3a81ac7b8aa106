//! The failure taxonomy. The matcher and the dispatch policy never fail;
//! every fault comes from a collaborator — acquiring the window list or the
//! focused window, parsing their output, launching the fallback program, or
//! executing the chosen action — and aborts the whole invocation.

use vstd::prelude::*;

verus! {

/// Exit code reported by the enclosing process on any propagated error.
pub const FAILURE_EXIT_CODE: i32 = 101;

/// One terminal failure of an invocation. The payload carries the offending
/// input or a human-readable detail for the report at the process boundary.
#[derive(Debug)]
pub enum Error {
    /// The window-query collaborator could not enumerate windows or name the
    /// focused window, or its output was missing an expected field.
    Acquisition { detail: String },
    /// A window-id token was not in the expected numeric identifier format.
    Parse { token: String },
    /// The fallback process could not be started.
    Launch { detail: String },
    /// The chosen activate/minimize action failed at the executor boundary.
    Action { detail: String },
}

/// Every propagated error maps to the same distinguished non-zero exit code;
/// the decision logic stays exit-code-agnostic.
pub fn error_to_exit_code(e: &Error) -> (c: i32)
    ensures
        c == FAILURE_EXIT_CODE,
        c != 0,
{
    FAILURE_EXIT_CODE
}

} // verus!
