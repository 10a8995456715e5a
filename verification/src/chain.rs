//! The traversal as a function of what the record source answers.

use vstd::prelude::*;

use crate::error::Failure;
use crate::spf_checker::CheckResultView;
use crate::traversal::{Answer, Progress, DNS_LOOKUP_LIMIT};

verus! {

/// The number of lookups that a traversal in this state may still make.
pub open spec fn budget_left(state: Progress) -> nat {
    if state.visited.len() < DNS_LOOKUP_LIMIT {
        (DNS_LOOKUP_LIMIT - state.visited.len()) as nat
    } else {
        0
    }
}

/// Settling changes nothing but the line, and ends with the traversal over
/// or with a new domain next.
pub proof fn lemma_settle_keeps(state: Progress)
    ensures
        state.settle() == (Progress { frontier: state.settle().frontier, ..state }),
        state.settle().finished() || !state.settle().visited.contains(state.settle().next()),
    decreases state.frontier.len(),
{
    if !state.finished() && state.visited.contains(state.next()) {
        lemma_settle_keeps(state.skip());
    }
}

/// The state in which a traversal from `state` ends when the record source
/// answers as `source` says, or the failure that ends it: settle; where the
/// traversal is not over, look up the next domain, take in the answer, and go
/// on from there.
pub open spec fn run(source: spec_fn(Seq<char>) -> Answer, state: Progress) -> Result<
    Progress,
    Failure,
>
    decreases budget_left(state),
{
    let settled = state.settle();
    if settled.finished() {
        Ok(settled)
    } else {
        match settled.begin().answered(settled.next(), source(settled.next())) {
            Err(failure) => Err(failure),
            Ok(after) => {
                proof {
                    lemma_settle_keeps(state);
                }
                run(source, after)
            },
        }
    }
}

/// The domains that were looked up when a traversal from `state` ends or
/// fails, in the order of the lookups: those looked up before `state`, then
/// those of the traversal, the one that it failed on last.
pub open spec fn lookups(source: spec_fn(Seq<char>) -> Answer, state: Progress) -> Seq<Seq<char>>
    decreases budget_left(state),
{
    let settled = state.settle();
    if settled.finished() {
        settled.visited
    } else {
        match settled.begin().answered(settled.next(), source(settled.next())) {
            Err(_) => settled.begin().visited,
            Ok(after) => {
                proof {
                    lemma_settle_keeps(state);
                }
                lookups(source, after)
            },
        }
    }
}

/// What a traversal from `root` for `target` returns when the record source
/// answers as `source` says.
pub open spec fn resolve(
    source: spec_fn(Seq<char>) -> Answer,
    root: Seq<char>,
    target: Seq<char>,
) -> Result<CheckResultView, Failure> {
    match run(source, Progress::start(root, target)) {
        Ok(end) => Ok(end.result()),
        Err(failure) => Err(failure),
    }
}

} // verus!
