//! Reachability in chains of SPF records.
//!
//! Given a root domain and a target domain, the library decides whether the
//! target is named by an `include` mechanism of a record that can be reached
//! from the root's record by following `include` and `redirect` edges, within
//! the protocol's ceiling of ten lookups.
//!
//! - [`spf_checker`]: the checker, which runs a traversal against a record
//!   source, and what it returns.
//! - [`traversal`]: the traversal one lookup at a time, in memory and as a
//!   mathematical state.
//! - [`chain`]: the whole traversal as a function of what the record source
//!   answers.
//! - [`laws`]: what holds of every traversal.
//! - [`record`], [`mechanism`], [`domain`]: records, their mechanisms, and
//!   lists of domains.
//! - [`error`], [`response`]: failures, and what a caller is told.

pub mod chain;
pub mod domain;
pub mod error;
pub mod laws;
pub mod mechanism;
pub mod record;
pub mod response;
pub mod spf_checker;
pub mod traversal;
