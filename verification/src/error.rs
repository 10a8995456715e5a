//! How a traversal fails.

use vstd::prelude::*;

verus! {

/// The record source could not answer a query.
#[derive(Clone, Copy, Debug, PartialEq, Eq)]
pub struct LookupFailed;

/// Why a traversal was abandoned. Either error ends the traversal at once: no
/// partial result is returned beside it.
#[derive(Clone, Debug, PartialEq, Eq)]
pub enum ResolverError {
    /// The record source failed on `domain`.
    RecordSourceError { domain: String },
    /// The record source answered with `raw_text`, which is no valid record.
    RecordParseError { raw_text: String },
}

/// The mathematical value of a [`ResolverError`].
pub enum Failure {
    RecordSource { domain: Seq<char> },
    RecordParse { raw_text: Seq<char> },
}

impl Failure {
    /// The short text under which a failure is reported.
    pub open spec fn message(self) -> Seq<char> {
        match self {
            Failure::RecordSource { .. } => "DNS_LOOKUP_FAILED"@,
            Failure::RecordParse { .. } => "SPF_PARSE_FAILED"@,
        }
    }
}

impl View for ResolverError {
    type V = Failure;

    open spec fn view(&self) -> Failure {
        match self {
            ResolverError::RecordSourceError { domain } => Failure::RecordSource {
                domain: domain@,
            },
            ResolverError::RecordParseError { raw_text } => Failure::RecordParse {
                raw_text: raw_text@,
            },
        }
    }
}

impl ResolverError {
    /// The short text under which the error is reported to a caller.
    pub fn message(&self) -> (text: String)
        ensures
            text@ == self@.message(),
    {
        match self {
            ResolverError::RecordSourceError { .. } => "DNS_LOOKUP_FAILED".to_owned(),
            ResolverError::RecordParseError { .. } => "SPF_PARSE_FAILED".to_owned(),
        }
    }
}

} // verus!
