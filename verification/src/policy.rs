use vstd::prelude::*;

use crate::error::AppError;

verus! {

/// Seconds to wait before retrying a failed pass.
pub const DEFAULT_BACKOFF_SECONDS: u64 = 30;

/// Seconds to wait for an externally assigned address to appear.
pub const MISSING_ADDRESS_RETRY_SECONDS: u64 = 10;

/// What the dispatch loop does once a reconciliation pass has finished.
#[derive(Debug, Clone, Copy, PartialEq, Eq, Structural)]
pub enum NextAction {
    /// Run the pass again after this many seconds: the failure is expected
    /// to clear on its own, or an operator has been alerted meanwhile.
    RetryBackoff(u64),
    /// The pass succeeded; run the next periodic resync after this many
    /// seconds, so drift is corrected even without new events.
    Requeue(u64),
    /// Nothing is scheduled; wait for the next change event.
    AwaitChange,
}

/// The scheduling decision a failed pass maps to.
pub open spec fn spec_error_policy(e: AppError) -> NextAction {
    match e {
        AppError::MissingAddress => NextAction::RetryBackoff(MISSING_ADDRESS_RETRY_SECONDS),
        _ => NextAction::RetryBackoff(DEFAULT_BACKOFF_SECONDS),
    }
}

/// Map a failed reconciliation pass to its next action. A missing assigned
/// address is expected to appear soon and gets a short fixed-delay retry;
/// every other failure gets the default backoff — the fatal ones among them
/// have been surfaced and need an operator, so no faster remediation is
/// attempted.
pub fn error_policy(error: &AppError) -> (a: NextAction)
    ensures
        a == spec_error_policy(*error),
{
    match error {
        AppError::MissingAddress => NextAction::RetryBackoff(MISSING_ADDRESS_RETRY_SECONDS),
        _ => NextAction::RetryBackoff(DEFAULT_BACKOFF_SECONDS),
    }
}

} // verus!
