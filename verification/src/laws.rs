//! What holds of every traversal, whatever the record source answers.

use vstd::prelude::*;

use crate::chain::{budget_left, lemma_settle_keeps, lookups, resolve, run};
use crate::error::Failure;
use crate::mechanism::{followed_redirects, has_all, include_targets, MechanismView};
use crate::record::spf_mechanisms;
use crate::spf_checker::{CheckResultView, SpfChecker, SpnResolver};
use crate::traversal::{
    lemma_absorb_wf, lemma_begin_wf, lemma_settle_wf, Answer, Progress, DNS_LOOKUP_LIMIT,
};

verus! {

/// A traversal from a well-formed state ends, if it does not fail, in a
/// well-formed state in which it is over, and looks up what was looked up
/// before and then only new domains.
pub proof fn lemma_run_wf(source: spec_fn(Seq<char>) -> Answer, state: Progress)
    requires
        state.wf(),
    ensures
        run(source, state) matches Ok(end) ==> {
            &&& end.wf()
            &&& end.finished()
            &&& end.root == state.root
            &&& end.target == state.target
            &&& state.visited.is_prefix_of(end.visited)
        },
    decreases budget_left(state),
{
    lemma_settle_wf(state);
    lemma_settle_keeps(state);
    let settled = state.settle();
    if !settled.finished() {
        let next = settled.next();
        let begun = settled.begin();
        lemma_begin_wf(settled);
        assert(begun.visited.last() == next);
        match begun.answered(next, source(next)) {
            Err(_) => {},
            Ok(after) => {
                match source(next) {
                    Answer::Record(text) => {
                        lemma_absorb_wf(begun, next, text, spf_mechanisms(text).unwrap());
                    },
                    _ => {},
                }
                lemma_run_wf(source, after);
            },
        }
    }
}

/// The ceiling on lookups: a traversal looks up the root, and never more
/// than ten domains.
pub proof fn lemma_lookups_within_limit(
    source: spec_fn(Seq<char>) -> Answer,
    root: Seq<char>,
    target: Seq<char>,
)
    ensures
        resolve(source, root, target) matches Ok(result) ==> 1 <= result.visited
            <= DNS_LOOKUP_LIMIT,
{
    lemma_no_domain_twice(source, root, target);
    lemma_run_wf(source, Progress::start(root, target));
}

/// What is looked up from a well-formed state on: no domain twice, no more
/// domains than the limit allows, first those that were looked up before;
/// and where the traversal does not fail, it ends with just these looked up.
pub proof fn lemma_lookups(source: spec_fn(Seq<char>) -> Answer, state: Progress)
    requires
        state.wf(),
    ensures
        lookups(source, state).no_duplicates(),
        lookups(source, state).len() <= DNS_LOOKUP_LIMIT,
        state.visited.is_prefix_of(lookups(source, state)),
        run(source, state) matches Ok(end) ==> end.visited == lookups(source, state),
    decreases budget_left(state),
{
    lemma_settle_wf(state);
    lemma_settle_keeps(state);
    let settled = state.settle();
    if !settled.finished() {
        let next = settled.next();
        let begun = settled.begin();
        lemma_begin_wf(settled);
        assert(begun.visited.last() == next);
        match begun.answered(next, source(next)) {
            Err(_) => {},
            Ok(after) => {
                match source(next) {
                    Answer::Record(text) => {
                        lemma_absorb_wf(begun, next, text, spf_mechanisms(text).unwrap());
                    },
                    _ => {},
                }
                lemma_lookups(source, after);
            },
        }
    }
}

/// No domain is looked up twice, so a chain that leads back into itself ends:
/// the lookups of a traversal, whether it fails or not, are distinct domains,
/// the root first, and no more than the limit allows; and the number of
/// lookups reported is their number.
pub proof fn lemma_no_domain_twice(
    source: spec_fn(Seq<char>) -> Answer,
    root: Seq<char>,
    target: Seq<char>,
)
    ensures
        lookups(source, Progress::start(root, target)).no_duplicates(),
        1 <= lookups(source, Progress::start(root, target)).len() <= DNS_LOOKUP_LIMIT,
        lookups(source, Progress::start(root, target))[0] == root,
        resolve(source, root, target) matches Ok(result) ==> result.visited == lookups(
            source,
            Progress::start(root, target),
        ).len(),
{
    let start = Progress::start(root, target);
    assert(start.settle() == start);
    lemma_lookups(source, start);
    let begun = start.begin();
    lemma_begin_wf(start);
    assert(begun.visited.last() == root);
    if let Ok(after) = begun.answered(root, source(root)) {
        match source(root) {
            Answer::Record(text) => {
                lemma_absorb_wf(begun, root, text, spf_mechanisms(text).unwrap());
            },
            _ => {},
        }
        lemma_lookups(source, after);
        assert(after.visited[0] == root);
    }
}

/// The target is reported as found exactly if it is among the include targets
/// reported.
pub proof fn lemma_found_iff_included(
    source: spec_fn(Seq<char>) -> Answer,
    root: Seq<char>,
    target: Seq<char>,
)
    ensures
        resolve(source, root, target) matches Ok(result) ==> {
            &&& result.included_domains is Some
            &&& result.found <==> result.included_domains.unwrap().contains(target)
        },
{
    lemma_run_wf(source, Progress::start(root, target));
}

/// Once the root was looked up, the record reported for it stays.
proof fn lemma_root_record_stays(source: spec_fn(Seq<char>) -> Answer, state: Progress)
    requires
        state.visited.contains(state.root),
    ensures
        run(source, state) matches Ok(end) ==> end.root_record == state.root_record,
    decreases budget_left(state),
{
    lemma_settle_keeps(state);
    let settled = state.settle();
    if !settled.finished() {
        let next = settled.next();
        let begun = settled.begin();
        if let Ok(after) = begun.answered(next, source(next)) {
            let k = choose|k: int| 0 <= k < state.visited.len() && state.visited[k] == state.root;
            assert(after.visited[k] == state.root);
            lemma_root_record_stays(source, after);
        }
    }
}

/// The record reported is the root's own: the text that the record source
/// gave for the root, and none where it gave none.
pub proof fn lemma_root_record(
    source: spec_fn(Seq<char>) -> Answer,
    root: Seq<char>,
    target: Seq<char>,
)
    ensures
        resolve(source, root, target) matches Ok(result) ==> result.spf_record == (match source(
            root,
        ) {
            Answer::Record(text) => Some(text),
            _ => None::<Seq<char>>,
        }),
{
    let start = Progress::start(root, target);
    assert(start.settle() == start);
    if let Ok(after) = start.begin().answered(root, source(root)) {
        assert(after.visited[0] == root);
        lemma_root_record_stays(source, after);
    }
}

/// The outcome rests on the answers to the lookups, and on nothing else: a
/// source that answers the lookups of a traversal in the same way leads to
/// the same lookups and the same outcome.
pub proof fn lemma_run_rests_on_lookups(
    first: spec_fn(Seq<char>) -> Answer,
    second: spec_fn(Seq<char>) -> Answer,
    state: Progress,
)
    requires
        state.wf(),
        forall|domain: Seq<char>|
            lookups(first, state).contains(domain) && !state.visited.contains(domain) ==> first(
                domain,
            ) == second(domain),
    ensures
        run(second, state) == run(first, state),
        lookups(second, state) == lookups(first, state),
    decreases budget_left(state),
{
    lemma_settle_wf(state);
    lemma_settle_keeps(state);
    let settled = state.settle();
    if !settled.finished() {
        let next = settled.next();
        let begun = settled.begin();
        lemma_begin_wf(settled);
        assert(begun.visited.last() == next);
        match begun.answered(next, first(next)) {
            Err(_) => {
                assert(lookups(first, state).contains(next));
            },
            Ok(after) => {
                match first(next) {
                    Answer::Record(text) => {
                        lemma_absorb_wf(begun, next, text, spf_mechanisms(text).unwrap());
                    },
                    _ => {},
                }
                lemma_lookups(first, after);
                assert(lookups(first, state)[begun.visited.len() - 1] == next);
                assert(first(next) == second(next));
                assert forall|domain: Seq<char>|
                    lookups(first, after).contains(domain) && !after.visited.contains(
                        domain,
                    ) implies first(domain) == second(domain) by {
                    if state.visited.contains(domain) {
                        let k = choose|k: int|
                            0 <= k < state.visited.len() && state.visited[k] == domain;
                        assert(after.visited[k] == domain);
                    }
                }
                lemma_run_rests_on_lookups(first, second, after);
            },
        }
    }
}

/// Asking again gives the same: a traversal carries nothing over from one
/// request to the next, so two requests for the same root and target, to
/// record sources that answer the lookups of the first in the same way, come
/// to the same outcome.
pub proof fn lemma_same_answers_same_outcome(
    first: spec_fn(Seq<char>) -> Answer,
    second: spec_fn(Seq<char>) -> Answer,
    root: Seq<char>,
    target: Seq<char>,
)
    requires
        forall|domain: Seq<char>|
            lookups(first, Progress::start(root, target)).contains(domain) ==> first(domain)
                == second(domain),
    ensures
        resolve(second, root, target) == resolve(first, root, target),
        lookups(second, Progress::start(root, target)) == lookups(
            first,
            Progress::start(root, target),
        ),
{
    lemma_run_rests_on_lookups(first, second, Progress::start(root, target));
}

/// Whether a record source has one answer for each domain.
pub open spec fn steady<R: SpnResolver>(resolver: R) -> bool {
    forall|domain: Seq<char>, one: Answer, other: Answer|
        #[trigger] resolver.may_answer(domain, one) && #[trigger] resolver.may_answer(
            domain,
            other,
        ) ==> one == other
}

/// A checker whose record source answers as `record_of` says, and in no
/// other way, comes to the outcome of the traversal over `record_of`.
pub proof fn lemma_check_of_known_source<R: SpnResolver>(
    checker: SpfChecker<R>,
    record_of: spec_fn(Seq<char>) -> Answer,
    root: Seq<char>,
    target: Seq<char>,
    outcome: Result<CheckResultView, Failure>,
)
    requires
        forall|domain: Seq<char>, answer: Answer| #[trigger]
            checker.resolver().may_answer(domain, answer) ==> answer == record_of(domain),
        checker.checked(root, target, outcome),
    ensures
        outcome == resolve(record_of, root, target),
{
    let source = choose|source: spec_fn(Seq<char>) -> Answer|
        {
            &&& #[trigger] resolve(source, root, target) == outcome
            &&& forall|domain: Seq<char>|
                lookups(source, Progress::start(root, target)).contains(domain)
                    ==> checker.resolver().may_answer(domain, source(domain))
        };
    lemma_same_answers_same_outcome(source, record_of, root, target);
}

/// Asking again gives the same: two checks for the same root and target,
/// against a record source that has one answer for each domain, come to the
/// same outcome.
pub proof fn lemma_check_again<R: SpnResolver>(
    checker: SpfChecker<R>,
    root: Seq<char>,
    target: Seq<char>,
    first: Result<CheckResultView, Failure>,
    second: Result<CheckResultView, Failure>,
)
    requires
        steady(checker.resolver()),
        checker.checked(root, target, first),
        checker.checked(root, target, second),
    ensures
        first == second,
{
    let record_of = |domain: Seq<char>|
        choose|answer: Answer| checker.resolver().may_answer(domain, answer);
    assert forall|domain: Seq<char>, answer: Answer| #[trigger]
        checker.resolver().may_answer(domain, answer) implies answer == record_of(domain) by {
        assert(checker.resolver().may_answer(domain, record_of(domain)));
    }
    lemma_check_of_known_source(checker, record_of, root, target, first);
    lemma_check_of_known_source(checker, record_of, root, target, second);
}

/// Asking again gives the same, also where the traversal fails: two record
/// sources that answer alike lead to the same outcome.
pub proof fn lemma_unchanged_source_same_outcome(
    first: spec_fn(Seq<char>) -> Answer,
    second: spec_fn(Seq<char>) -> Answer,
    root: Seq<char>,
    target: Seq<char>,
)
    requires
        forall|domain: Seq<char>| #[trigger] first(domain) == second(domain),
    ensures
        resolve(second, root, target) == resolve(first, root, target),
{
    assert(first =~= second);
}

/// A traversal that is over ends where it is.
proof fn lemma_run_over(source: spec_fn(Seq<char>) -> Answer, state: Progress)
    requires
        state.finished(),
    ensures
        run(source, state) == Ok::<Progress, Failure>(state),
{
    assert(state.settle() == state);
}

/// A traversal with a new domain next looks it up and goes on from the
/// answer.
proof fn lemma_run_step(source: spec_fn(Seq<char>) -> Answer, state: Progress)
    requires
        !state.finished(),
        !state.visited.contains(state.next()),
    ensures
        run(source, state) == (match state.begin().answered(state.next(), source(state.next())) {
            Err(failure) => Err(failure),
            Ok(after) => run(source, after),
        }),
{
    assert(state.settle() == state);
}

/// A list of one domain holds that domain and no other.
proof fn lemma_one_domain(domain: Seq<char>, other: Seq<char>)
    ensures
        seq![domain].contains(other) <==> domain == other,
{
    if domain == other {
        assert(seq![domain][0] == other);
    }
}

/// The state after the root's record was read, where it does not include the
/// target: the root was looked up, and the line holds the redirects to
/// follow and then the include targets.
proof fn lemma_root_read(
    source: spec_fn(Seq<char>) -> Answer,
    root: Seq<char>,
    target: Seq<char>,
    text: Seq<char>,
    mechanisms: Seq<MechanismView>,
)
    requires
        source(root) == Answer::Record(text),
        spf_mechanisms(text) == Some(mechanisms),
        !include_targets(mechanisms).contains(target),
    ensures
        run(source, Progress::start(root, target)) == run(
            source,
            Progress {
                root,
                target,
                frontier: followed_redirects(mechanisms) + include_targets(mechanisms),
                visited: seq![root],
                root_record: Some(text),
                included: include_targets(mechanisms),
                found: false,
            },
        ),
{
    let start = Progress::start(root, target);
    lemma_run_step(source, start);
    let after = start.begin().absorb(root, text, mechanisms);
    assert(after.frontier =~= followed_redirects(mechanisms) + include_targets(mechanisms));
    assert(after.visited =~= seq![root]);
    assert(after.included =~= include_targets(mechanisms));
}

/// A direct match: where the root's record includes the target, the
/// traversal ends after that one lookup, with the root's record and its
/// include targets.
pub proof fn lemma_direct_match(
    source: spec_fn(Seq<char>) -> Answer,
    root: Seq<char>,
    target: Seq<char>,
    text: Seq<char>,
    mechanisms: Seq<MechanismView>,
)
    requires
        source(root) == Answer::Record(text),
        spf_mechanisms(text) == Some(mechanisms),
        include_targets(mechanisms).contains(target),
    ensures
        resolve(source, root, target) == Ok::<CheckResultView, Failure>(
            CheckResultView {
                found: true,
                visited: 1,
                spf_record: Some(text),
                included_domains: Some(include_targets(mechanisms)),
            },
        ),
{
    let start = Progress::start(root, target);
    lemma_run_step(source, start);
    let after = start.begin().absorb(root, text, mechanisms);
    lemma_run_over(source, after);
    assert(after.included =~= include_targets(mechanisms));
}

/// A miss after one hop: where the root's record includes one other domain
/// and names no redirect to follow, that domain has no record, and the target
/// is another domain, the traversal looks up the two and finds nothing.
pub proof fn lemma_miss_after_one_hop(
    source: spec_fn(Seq<char>) -> Answer,
    root: Seq<char>,
    target: Seq<char>,
    text: Seq<char>,
    mechanisms: Seq<MechanismView>,
    other: Seq<char>,
)
    requires
        source(root) == Answer::Record(text),
        spf_mechanisms(text) == Some(mechanisms),
        include_targets(mechanisms) == seq![other],
        followed_redirects(mechanisms).len() == 0,
        other != root,
        other != target,
        source(other) == Answer::NoRecord,
    ensures
        resolve(source, root, target) == Ok::<CheckResultView, Failure>(
            CheckResultView {
                found: false,
                visited: 2,
                spf_record: Some(text),
                included_domains: Some(seq![other]),
            },
        ),
{
    lemma_one_domain(other, target);
    lemma_root_read(source, root, target, text, mechanisms);
    let first = Progress {
        root,
        target,
        frontier: followed_redirects(mechanisms) + include_targets(mechanisms),
        visited: seq![root],
        root_record: Some(text),
        included: seq![other],
        found: false,
    };
    assert(first.frontier =~= seq![other]);
    lemma_one_domain(root, other);
    lemma_run_step(source, first);
    let last = first.begin();
    assert(last.frontier =~= Seq::<Seq<char>>::empty());
    lemma_run_over(source, last);
}

/// A redirect is followed where the record holds no `all`: where the root's
/// record includes nothing and redirects to one other domain, whose record
/// includes the target, the traversal finds the target at the second lookup.
pub proof fn lemma_redirect_followed(
    source: spec_fn(Seq<char>) -> Answer,
    root: Seq<char>,
    target: Seq<char>,
    text: Seq<char>,
    mechanisms: Seq<MechanismView>,
    delegate: Seq<char>,
    delegate_text: Seq<char>,
    delegate_mechanisms: Seq<MechanismView>,
)
    requires
        source(root) == Answer::Record(text),
        spf_mechanisms(text) == Some(mechanisms),
        include_targets(mechanisms).len() == 0,
        followed_redirects(mechanisms) == seq![delegate],
        delegate != root,
        source(delegate) == Answer::Record(delegate_text),
        spf_mechanisms(delegate_text) == Some(delegate_mechanisms),
        include_targets(delegate_mechanisms).contains(target),
    ensures
        resolve(source, root, target) == Ok::<CheckResultView, Failure>(
            CheckResultView {
                found: true,
                visited: 2,
                spf_record: Some(text),
                included_domains: Some(include_targets(delegate_mechanisms)),
            },
        ),
{
    lemma_root_read(source, root, target, text, mechanisms);
    let first = Progress {
        root,
        target,
        frontier: followed_redirects(mechanisms) + include_targets(mechanisms),
        visited: seq![root],
        root_record: Some(text),
        included: include_targets(mechanisms),
        found: false,
    };
    assert(first.frontier =~= seq![delegate]);
    lemma_one_domain(root, delegate);
    lemma_run_step(source, first);
    let last = first.begin().absorb(delegate, delegate_text, delegate_mechanisms);
    lemma_run_over(source, last);
    assert(last.included =~= include_targets(delegate_mechanisms));
}

/// An `all` suppresses a redirect: where the root's record holds an `all`
/// and includes nothing, the traversal ends after the one lookup, whatever
/// the record redirects to and whatever stands there.
pub proof fn lemma_redirect_suppressed(
    source: spec_fn(Seq<char>) -> Answer,
    root: Seq<char>,
    target: Seq<char>,
    text: Seq<char>,
    mechanisms: Seq<MechanismView>,
)
    requires
        source(root) == Answer::Record(text),
        spf_mechanisms(text) == Some(mechanisms),
        has_all(mechanisms),
        include_targets(mechanisms).len() == 0,
    ensures
        resolve(source, root, target) == Ok::<CheckResultView, Failure>(
            CheckResultView {
                found: false,
                visited: 1,
                spf_record: Some(text),
                included_domains: Some(Seq::empty()),
            },
        ),
{
    lemma_root_read(source, root, target, text, mechanisms);
    let first = Progress {
        root,
        target,
        frontier: followed_redirects(mechanisms) + include_targets(mechanisms),
        visited: seq![root],
        root_record: Some(text),
        included: include_targets(mechanisms),
        found: false,
    };
    assert(first.frontier =~= Seq::<Seq<char>>::empty());
    assert(first.included =~= Seq::<Seq<char>>::empty());
    lemma_run_over(source, first);
}

/// A chain that leads back into itself ends: where the root includes one
/// other domain and that domain includes the root, neither naming a redirect
/// to follow, the traversal looks up each of the two once.
pub proof fn lemma_cycle_of_two(
    source: spec_fn(Seq<char>) -> Answer,
    root: Seq<char>,
    target: Seq<char>,
    text: Seq<char>,
    mechanisms: Seq<MechanismView>,
    other: Seq<char>,
    other_text: Seq<char>,
    other_mechanisms: Seq<MechanismView>,
)
    requires
        root != other,
        target != root,
        target != other,
        source(root) == Answer::Record(text),
        spf_mechanisms(text) == Some(mechanisms),
        include_targets(mechanisms) == seq![other],
        followed_redirects(mechanisms).len() == 0,
        source(other) == Answer::Record(other_text),
        spf_mechanisms(other_text) == Some(other_mechanisms),
        include_targets(other_mechanisms) == seq![root],
        followed_redirects(other_mechanisms).len() == 0,
    ensures
        resolve(source, root, target) == Ok::<CheckResultView, Failure>(
            CheckResultView {
                found: false,
                visited: 2,
                spf_record: Some(text),
                included_domains: Some(seq![other, root]),
            },
        ),
{
    lemma_one_domain(other, target);
    lemma_one_domain(root, target);
    lemma_root_read(source, root, target, text, mechanisms);
    let first = Progress {
        root,
        target,
        frontier: followed_redirects(mechanisms) + include_targets(mechanisms),
        visited: seq![root],
        root_record: Some(text),
        included: seq![other],
        found: false,
    };
    assert(first.frontier =~= seq![other]);
    lemma_one_domain(root, other);
    lemma_run_step(source, first);
    let second = first.begin().absorb(other, other_text, other_mechanisms);
    assert(second.frontier =~= seq![root]);
    assert(second.visited =~= seq![root, other]);
    assert(second.included =~= seq![other, root]);
    assert(second.visited[0] == root);
    let last = second.skip();
    assert(last.frontier =~= Seq::<Seq<char>>::empty());
    assert(last.settle() == last);
    assert(second.settle() == last);
}

} // verus!
