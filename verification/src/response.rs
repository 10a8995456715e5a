//! What a caller is told about one request.

use vstd::prelude::*;

use crate::error::ResolverError;
use crate::spf_checker::CheckResult;

verus! {

/// The answer to a request that was carried through.
#[derive(Clone, Debug, PartialEq, Eq)]
pub struct SpfCheckResponse {
    pub found: bool,
    pub checked_domains: usize,
    pub domain: String,
    pub target: String,
    pub elapsed_ms: u64,
    pub has_spf_record: bool,
    pub spf_record: Option<String>,
    pub included_domains: Option<Vec<String>>,
}

/// The answer to a request that failed.
#[derive(Clone, Debug, PartialEq, Eq)]
pub struct ErrorResponse {
    pub error: String,
}

impl SpfCheckResponse {
    /// The answer to the request for `domain` and `target` that took
    /// `elapsed_ms` milliseconds and ended with `result`.
    pub fn new(result: CheckResult, domain: String, target: String, elapsed_ms: u64) -> (response:
        SpfCheckResponse)
        ensures
            response.found == result.found,
            response.checked_domains == result.visited,
            response.domain == domain,
            response.target == target,
            response.elapsed_ms == elapsed_ms,
            response.has_spf_record == (result.spf_record is Some),
            response.spf_record == result.spf_record,
            response.included_domains == result.included_domains,
    {
        let CheckResult { found, visited, spf_record, included_domains } = result;
        SpfCheckResponse {
            found,
            checked_domains: visited,
            domain,
            target,
            elapsed_ms,
            has_spf_record: spf_record.is_some(),
            spf_record,
            included_domains,
        }
    }
}

impl ErrorResponse {
    /// The answer to a request that ended with `error`.
    pub fn new(error: &ResolverError) -> (response: ErrorResponse)
        ensures
            response.error@ == error@.message(),
    {
        ErrorResponse { error: error.message() }
    }
}

} // verus!
