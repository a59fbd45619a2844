use vstd::prelude::*;

verus! {

/// Classified failure of one reconciliation pass.
///
/// Transient failures (`ResourceStore`, `DnsTransient`, `MissingAddress`) are
/// expected to clear on their own and are retried; the rest require operator
/// attention and are surfaced without automatic remediation.
#[derive(Debug, Clone, PartialEq, Eq)]
pub enum AppError {
    /// The resource store rejected a patch or list transiently
    /// (network failure or optimistic-concurrency conflict).
    ResourceStore(String),
    /// The DNS provider failed transiently (network failure or 5xx).
    DnsTransient(String),
    /// The DNS provider rejected a request as invalid (4xx).
    DnsValidation(String),
    /// More than one DNS record matches the given hostname; the zone is in an
    /// inconsistent state that is never auto-merged or auto-deleted.
    AmbiguousRecord(String),
    /// The externally assigned address is not available yet.
    MissingAddress,
    /// The observed resource lacks a usable identity.
    MalformedResource(String),
}

impl AppError {
    /// Whether retrying without operator intervention can succeed.
    pub fn is_transient(&self) -> (r: bool)
        ensures
            r == self.spec_is_transient(),
    {
        match self {
            AppError::ResourceStore(_) => true,
            AppError::DnsTransient(_) => true,
            AppError::MissingAddress => true,
            AppError::DnsValidation(_) => false,
            AppError::AmbiguousRecord(_) => false,
            AppError::MalformedResource(_) => false,
        }
    }

    pub open spec fn spec_is_transient(&self) -> bool {
        match self {
            AppError::ResourceStore(_) => true,
            AppError::DnsTransient(_) => true,
            AppError::MissingAddress => true,
            _ => false,
        }
    }
}

} // verus!
