//! The checker: a record source, and the traversal run against it.
//!
//! A record source is anything that implements [`SpnResolver`]. The checker
//! is given one when it is made, and asks no other.

use vstd::prelude::*;

use crate::chain::{budget_left, lemma_settle_keeps, lookups, resolve, run};
use crate::domain::domain_views;
use crate::error::{Failure, LookupFailed, ResolverError};
use crate::laws::{lemma_found_iff_included, lemma_lookups_within_limit};
use crate::traversal::{answer_view, Answer, Progress, Step, Traversal, DNS_LOOKUP_LIMIT};

verus! {

/// What a traversal found out.
#[derive(Clone, Debug, PartialEq, Eq)]
pub struct CheckResult {
    /// Whether a visited record includes the target.
    pub found: bool,
    /// The number of domains that were looked up.
    pub visited: usize,
    /// The root's record, where the root has one.
    pub spf_record: Option<String>,
    /// The domains that the visited records include, in the order met; a
    /// domain that several records include occurs several times. Always
    /// `Some`.
    pub included_domains: Option<Vec<String>>,
}

/// The mathematical value of a [`CheckResult`].
pub struct CheckResultView {
    pub found: bool,
    pub visited: nat,
    pub spf_record: Option<Seq<char>>,
    pub included_domains: Option<Seq<Seq<char>>>,
}

/// The text of an optional record.
pub open spec fn text_view(text: Option<String>) -> Option<Seq<char>> {
    match text {
        Some(t) => Some(t@),
        None => None,
    }
}

impl View for CheckResult {
    type V = CheckResultView;

    open spec fn view(&self) -> CheckResultView {
        CheckResultView {
            found: self.found,
            visited: self.visited as nat,
            spf_record: text_view(self.spf_record),
            included_domains: match self.included_domains {
                Some(list) => Some(domain_views(list@)),
                None => None,
            },
        }
    }
}

/// A result or an error, as mathematical values.
pub open spec fn outcome_view(outcome: Result<CheckResult, ResolverError>) -> Result<
    CheckResultView,
    Failure,
> {
    match outcome {
        Ok(result) => Ok(result@),
        Err(error) => Err(error@),
    }
}

/// A source of SPF records.
pub trait SpnResolver {
    /// Whether `answer` is an answer that the source may give for `domain`.
    /// As it stands a source may give any answer; a source that knows more
    /// of itself says so here, and keeps to it in `find_spf_record`.
    open spec fn may_answer(&self, domain: Seq<char>, answer: Answer) -> bool {
        true
    }

    /// Looks up the SPF record of `domain`: `Ok(Some(..))` with the record's
    /// text, `Ok(None)` where the domain has none, `Err(..)` where the lookup
    /// itself failed. Time limits and retries are the source's own affair.
    fn find_spf_record(&self, domain: &str) -> (reply: Result<Option<String>, LookupFailed>)
        ensures
            self.may_answer(domain@, answer_view(reply)),
    ;
}

/// Whether `source` gives every answer that `answers` holds.
spec fn gives(source: spec_fn(Seq<char>) -> Answer, answers: Map<Seq<char>, Answer>) -> bool {
    forall|domain: Seq<char>| #[trigger]
        answers.dom().contains(domain) ==> source(domain) == answers[domain]
}

/// The source that gives the answers that `answers` holds, and no record for
/// any other domain.
spec fn source_of(answers: Map<Seq<char>, Answer>) -> spec_fn(Seq<char>) -> Answer {
    |domain: Seq<char>|
        if answers.dom().contains(domain) {
            answers[domain]
        } else {
            Answer::NoRecord
        }
}

/// Checks chains of SPF records against one record source.
#[derive(Clone, Debug)]
pub struct SpfChecker<R: SpnResolver> {
    resolver: R,
}

impl<R: SpnResolver> SpfChecker<R> {
    /// The record source that the checker asks.
    pub closed spec fn resolver(&self) -> R {
        self.resolver
    }

    /// A checker that asks `resolver`.
    pub fn new(resolver: R) -> (checker: Self)
        ensures
            checker.resolver() == resolver,
    {
        Self { resolver }
    }

    /// What a check for `root` and `target` may come to: the outcome of the
    /// traversal over a record source that answers every lookup of that
    /// traversal as the checker's source may.
    pub open spec fn checked(
        &self,
        root: Seq<char>,
        target: Seq<char>,
        outcome: Result<CheckResultView, Failure>,
    ) -> bool {
        exists|source: spec_fn(Seq<char>) -> Answer|
            {
                &&& #[trigger] resolve(source, root, target) == outcome
                &&& forall|domain: Seq<char>|
                    lookups(source, Progress::start(root, target)).contains(domain)
                        ==> self.resolver().may_answer(domain, source(domain))
            }
    }

    /// Tells whether `target` is included by a record in the chain that
    /// starts at `root_domain`.
    ///
    /// The checker knows of the records what its record source answers, and
    /// each call starts from nothing. So the outcome is that of the traversal
    /// over the answers received, as [`SpfChecker::checked`] says; a failed
    /// lookup and a record that does not parse end the traversal with an
    /// error, and running out of lookups ends it with what was found.
    pub fn check(&self, root_domain: &String, target: &String) -> (outcome: Result<
        CheckResult,
        ResolverError,
    >)
        ensures
            self.checked(root_domain@, target@, outcome_view(outcome)),
            outcome matches Ok(result) ==> {
                &&& 1 <= result.visited <= DNS_LOOKUP_LIMIT
                &&& result.included_domains matches Some(list)
                &&& result.found <==> domain_views(list@).contains(target@)
            },
    {
        let ghost start = Progress::start(root_domain@, target@);
        let ghost mut answers: Map<Seq<char>, Answer> = Map::empty();
        let mut traversal = Traversal::new(root_domain, target);
        loop
            invariant
                start == Progress::start(root_domain@, target@),
                forall|domain: Seq<char>|
                    answers.dom().contains(domain) <==> traversal@.visited.contains(domain),
                forall|domain: Seq<char>| #[trigger]
                    answers.dom().contains(domain) ==> self.resolver().may_answer(
                        domain,
                        answers[domain],
                    ),
                forall|source: spec_fn(Seq<char>) -> Answer|
                    gives(source, answers) ==> #[trigger] run(source, start) == run(
                        source,
                        traversal@,
                    ),
                forall|source: spec_fn(Seq<char>) -> Answer|
                    gives(source, answers) ==> #[trigger] lookups(source, start) == lookups(
                        source,
                        traversal@,
                    ),
            decreases budget_left(traversal@),
        {
            let ghost before = traversal@;
            let ghost settled = before.settle();
            proof {
                lemma_settle_keeps(before);
            }
            match traversal.step() {
                Step::Done(result) => {
                    proof {
                        let source = source_of(answers);
                        assert(gives(source, answers));
                        assert(run(source, start) == run(source, before));
                        assert(lookups(source, start) == lookups(source, before));
                        assert(resolve(source, root_domain@, target@) == outcome_view(
                            Ok(result),
                        ));
                        lemma_lookups_within_limit(source, root_domain@, target@);
                        lemma_found_iff_included(source, root_domain@, target@);
                    }
                    return Ok(result);
                },
                Step::Query(query) => {
                    let reply = self.resolver.find_spf_record(query.domain().as_str());
                    let ghost domain = query.asked();
                    let ghost answer = answer_view(reply);
                    let ghost earlier = answers;
                    proof {
                        answers = earlier.insert(domain, answer);
                        assert forall|source: spec_fn(Seq<char>) -> Answer|
                            gives(source, answers) implies gives(source, earlier) && source(domain)
                            == answer by {
                            assert(answers.dom().contains(domain));
                            assert forall|d: Seq<char>| #[trigger]
                                earlier.dom().contains(d) implies source(d) == earlier[d] by {
                                assert(answers.dom().contains(d));
                            }
                        }
                    }
                    match query.answer(reply) {
                        Ok(next) => {
                            traversal = next;
                            proof {
                                assert forall|source: spec_fn(Seq<char>) -> Answer|
                                    gives(source, answers) implies #[trigger] run(source, start)
                                    == run(source, traversal@) by {
                                    assert(gives(source, earlier));
                                    assert(run(source, start) == run(source, before));
                                }
                                assert forall|source: spec_fn(Seq<char>) -> Answer|
                                    gives(source, answers) implies #[trigger] lookups(
                                    source,
                                    start,
                                ) == lookups(source, traversal@) by {
                                    assert(gives(source, earlier));
                                    assert(lookups(source, start) == lookups(source, before));
                                }
                                assert forall|d: Seq<char>|
                                    answers.dom().contains(d) <==> traversal@.visited.contains(
                                        d,
                                    ) by {
                                    lemma_push_contains(before.visited, domain, d);
                                }
                            }
                        },
                        Err(error) => {
                            proof {
                                let source = source_of(answers);
                                assert(gives(source, answers));
                                assert(gives(source, earlier));
                                assert(run(source, start) == run(source, before));
                                assert(lookups(source, start) == lookups(source, before));
                                assert(resolve(source, root_domain@, target@) == outcome_view(
                                    Err(error),
                                ));
                                assert forall|d: Seq<char>|
                                    lookups(source, start).contains(d) implies answers.dom()
                                    .contains(d) by {
                                    lemma_push_contains(before.visited, domain, d);
                                }
                            }
                            return Err(error);
                        },
                    }
                },
            }
        }
    }
}

/// What a list holds after one more item joined it.
proof fn lemma_push_contains(list: Seq<Seq<char>>, item: Seq<char>, other: Seq<char>)
    ensures
        list.push(item).contains(other) <==> (list.contains(other) || other == item),
{
    let longer = list.push(item);
    if list.contains(other) {
        let k = choose|k: int| 0 <= k < list.len() && list[k] == other;
        assert(longer[k] == other);
    }
    if other == item {
        assert(longer[list.len() as int] == other);
    }
}

} // verus!
