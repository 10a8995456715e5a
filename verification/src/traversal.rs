//! The traversal of a chain of records, one lookup at a time.
//!
//! [`Progress`] is the mathematical state of a traversal and says, as
//! functions, how it moves. [`Traversal`] and [`Query`] are that state in
//! memory: a `Traversal` is asked for its next step, a `Query` is a traversal
//! that waits for the record of one domain.

use vstd::prelude::*;

use crate::domain::{append_domains, contains_domain, domain_views};
use crate::error::{Failure, LookupFailed, ResolverError};
use crate::mechanism::{
    collect_followed_redirects, collect_targets, followed_redirects, include_targets,
    mechanism_views, MechanismKind, MechanismView,
};
use crate::record::{spf_mechanisms, SpfRecord};
use crate::spf_checker::{text_view, CheckResult, CheckResultView};

verus! {

/// The number of lookups that one traversal may make.
pub const DNS_LOOKUP_LIMIT: usize = 10;

/// What a record source says of one domain.
pub enum Answer {
    /// The source failed.
    Failed,
    /// The domain has no SPF record.
    NoRecord,
    /// The domain's SPF record.
    Record(Seq<char>),
}

/// The answer that a reply of a record source stands for.
pub open spec fn answer_view(reply: Result<Option<String>, LookupFailed>) -> Answer {
    match reply {
        Err(_) => Answer::Failed,
        Ok(None) => Answer::NoRecord,
        Ok(Some(text)) => Answer::Record(text@),
    }
}

/// The state of a traversal.
pub struct Progress {
    /// The domain that the traversal started at.
    pub root: Seq<char>,
    /// The domain that is looked for.
    pub target: Seq<char>,
    /// The domains that wait for a lookup; the last one is next.
    pub frontier: Seq<Seq<char>>,
    /// The domains that were looked up, in that order.
    pub visited: Seq<Seq<char>>,
    /// The root's record, once it was seen.
    pub root_record: Option<Seq<char>>,
    /// The include targets of the records seen so far.
    pub included: Seq<Seq<char>>,
    /// Whether a record seen so far includes the target.
    pub found: bool,
}

impl Progress {
    /// The state in which every traversal from `root` for `target` starts.
    pub open spec fn start(root: Seq<char>, target: Seq<char>) -> Progress {
        Progress {
            root,
            target,
            frontier: seq![root],
            visited: Seq::empty(),
            root_record: None,
            included: Seq::empty(),
            found: false,
        }
    }

    /// What holds of every state that a traversal reaches: no domain was
    /// looked up twice, the lookups are within the limit, a root record was
    /// seen only if the root was looked up, and the target was found exactly
    /// if it is among the include targets.
    pub open spec fn wf(self) -> bool {
        &&& self.visited.no_duplicates()
        &&& self.visited.len() <= DNS_LOOKUP_LIMIT
        &&& self.root_record is Some ==> self.visited.contains(self.root)
        &&& self.found <==> self.included.contains(self.target)
    }

    /// Whether the traversal is over: the target was found, nothing waits, or
    /// the lookups are used up.
    pub open spec fn finished(self) -> bool {
        self.found || self.frontier.len() == 0 || self.visited.len() >= DNS_LOOKUP_LIMIT
    }

    /// The domain that is next in line.
    pub open spec fn next(self) -> Seq<char> {
        self.frontier.last()
    }

    /// The state without the domain that is next in line.
    pub open spec fn skip(self) -> Progress {
        Progress { frontier: self.frontier.drop_last(), ..self }
    }

    /// The state after every domain at the head of the line that was looked
    /// up before has left it: either the traversal is over, or the next
    /// domain is a new one.
    pub open spec fn settle(self) -> Progress
        decreases self.frontier.len(),
    {
        if !self.finished() && self.visited.contains(self.next()) {
            self.skip().settle()
        } else {
            self
        }
    }

    /// The state once the next domain has left the line to be looked up.
    pub open spec fn begin(self) -> Progress {
        Progress {
            frontier: self.frontier.drop_last(),
            visited: self.visited.push(self.next()),
            ..self
        }
    }

    /// The state after the record of `domain`, with text `text` and the given
    /// mechanisms, was read. Its include targets are put on record. If the
    /// target is among them the traversal is over. Otherwise the redirects to
    /// follow and then the include targets join the line, so that the
    /// includes are looked up before a redirect.
    pub open spec fn absorb(
        self,
        domain: Seq<char>,
        text: Seq<char>,
        mechanisms: Seq<MechanismView>,
    ) -> Progress {
        let includes = include_targets(mechanisms);
        let hit = includes.contains(self.target);
        Progress {
            root_record: if domain == self.root {
                Some(text)
            } else {
                self.root_record
            },
            included: self.included + includes,
            found: self.found || hit,
            frontier: if hit {
                self.frontier
            } else {
                self.frontier + followed_redirects(mechanisms) + includes
            },
            ..self
        }
    }

    /// The state after the record source answered the lookup of `domain`, or
    /// the failure that ends the traversal.
    pub open spec fn answered(self, domain: Seq<char>, answer: Answer) -> Result<
        Progress,
        Failure,
    > {
        match answer {
            Answer::Failed => Err(Failure::RecordSource { domain }),
            Answer::NoRecord => Ok(self),
            Answer::Record(text) => match spf_mechanisms(text) {
                None => Err(Failure::RecordParse { raw_text: text }),
                Some(mechanisms) => Ok(self.absorb(domain, text, mechanisms)),
            },
        }
    }

    /// What a traversal that ends in this state reports.
    pub open spec fn result(self) -> CheckResultView {
        CheckResultView {
            found: self.found,
            visited: self.visited.len(),
            spf_record: self.root_record,
            included_domains: Some(self.included),
        }
    }
}

/// Settling keeps a state well formed.
pub proof fn lemma_settle_wf(state: Progress)
    requires
        state.wf(),
    ensures
        state.settle().wf(),
    decreases state.frontier.len(),
{
    if !state.finished() && state.visited.contains(state.next()) {
        lemma_settle_wf(state.skip());
    }
}

/// Taking a new domain from the line keeps a state well formed.
pub proof fn lemma_begin_wf(state: Progress)
    requires
        state.wf(),
        !state.finished(),
        !state.visited.contains(state.next()),
    ensures
        state.begin().wf(),
{
    let domain = state.next();
    let after = state.visited.push(domain);
    assert forall|i: int, j: int|
        0 <= i < after.len() && 0 <= j < after.len() && i != j implies after[i] != after[j] by {
        if i < state.visited.len() && j < state.visited.len() {
        } else if i < state.visited.len() {
            assert(state.visited.contains(after[i]));
        } else {
            assert(state.visited.contains(after[j]));
        }
    }
    if state.root_record is Some {
        let k = choose|k: int| 0 <= k < state.visited.len() && state.visited[k] == state.root;
        assert(after[k] == state.root);
    }
}

/// Reading the record of a domain that was looked up keeps a state well
/// formed.
pub proof fn lemma_absorb_wf(
    state: Progress,
    domain: Seq<char>,
    text: Seq<char>,
    mechanisms: Seq<MechanismView>,
)
    requires
        state.wf(),
        state.visited.contains(domain),
    ensures
        state.absorb(domain, text, mechanisms).wf(),
{
    let includes = include_targets(mechanisms);
    let after = state.absorb(domain, text, mechanisms);
    if after.found {
        if state.found {
            let k = choose|k: int|
                0 <= k < state.included.len() && state.included[k] == state.target;
            assert(after.included[k] == state.target);
        } else {
            let k = choose|k: int| 0 <= k < includes.len() && includes[k] == state.target;
            assert(after.included[state.included.len() + k] == state.target);
        }
    }
    if after.included.contains(state.target) {
        let k = choose|k: int|
            0 <= k < after.included.len() && after.included[k] == state.target;
        if k < state.included.len() {
            assert(state.included[k] == state.target);
        } else {
            assert(includes[k - state.included.len()] == state.target);
        }
    }
}

/// A traversal between two lookups.
pub struct Traversal {
    root: String,
    target: String,
    frontier: Vec<String>,
    visited: Vec<String>,
    root_record: Option<String>,
    included: Vec<String>,
    found: bool,
}

impl View for Traversal {
    type V = Progress;

    closed spec fn view(&self) -> Progress {
        Progress {
            root: self.root@,
            target: self.target@,
            frontier: domain_views(self.frontier@),
            visited: domain_views(self.visited@),
            root_record: text_view(self.root_record),
            included: domain_views(self.included@),
            found: self.found,
        }
    }
}

/// A traversal that waits for the record of one domain.
pub struct Query {
    state: Traversal,
    domain: String,
}

/// What a traversal does next.
pub enum Step {
    /// Look up the query's domain, and hand the reply to the query.
    Query(Query),
    /// Nothing: the traversal is over, with this result.
    Done(CheckResult),
}

impl Traversal {
    #[verifier::type_invariant]
    spec fn inv(self) -> bool {
        self@.wf()
    }

    /// A traversal from `root` that looks for `target`. It starts from
    /// nothing but these two.
    pub fn new(root: &String, target: &String) -> (traversal: Traversal)
        ensures
            traversal@ == Progress::start(root@, target@),
    {
        let mut frontier: Vec<String> = Vec::new();
        frontier.push(root.clone());
        let traversal = Traversal {
            root: root.clone(),
            target: target.clone(),
            frontier,
            visited: Vec::new(),
            root_record: None,
            included: Vec::new(),
            found: false,
        };
        assert(traversal@.frontier =~= seq![root@]);
        assert(traversal@.visited =~= Seq::empty());
        assert(traversal@.included =~= Seq::empty());
        traversal
    }

    /// The next step: the result where the traversal is over, else the next
    /// domain that was not looked up before, taken from the line.
    pub fn step(self) -> (step: Step)
        ensures
            match step {
                Step::Done(result) => {
                    &&& self@.settle().finished()
                    &&& result@ == self@.settle().result()
                    &&& result.visited <= DNS_LOOKUP_LIMIT
                },
                Step::Query(query) => {
                    &&& !self@.settle().finished()
                    &&& query.asked() == self@.settle().next()
                    &&& query.progress() == self@.settle().begin()
                },
            },
    {
        proof {
            use_type_invariant(&self);
        }
        let ghost start = self@;
        let Traversal { root, target, frontier, visited, root_record, included, found } = self;
        let mut frontier = frontier;
        let mut visited = visited;
        if found || visited.len() >= DNS_LOOKUP_LIMIT {
            return Step::Done(
                CheckResult {
                    found,
                    visited: visited.len(),
                    spf_record: root_record,
                    included_domains: Some(included),
                },
            );
        }
        loop
            invariant
                start == self@,
                start.wf(),
                !start.found,
                start.visited.len() < DNS_LOOKUP_LIMIT,
                start.root == root@,
                start.target == target@,
                start.visited == domain_views(visited@),
                start.root_record == text_view(root_record),
                start.included == domain_views(included@),
                start.found == found,
                start.settle() == (Progress {
                    frontier: domain_views(frontier@),
                    ..start
                }).settle(),
            decreases frontier.len(),
        {
            let ghost now = Progress { frontier: domain_views(frontier@), ..start };
            match frontier.pop() {
                None => {
                    assert(now.frontier.len() == 0);
                    assert(now.settle() == now);
                    return Step::Done(
                        CheckResult {
                            found,
                            visited: visited.len(),
                            spf_record: root_record,
                            included_domains: Some(included),
                        },
                    );
                },
                Some(domain) => {
                    assert(domain@ == now.next());
                    assert(domain_views(frontier@) =~= now.frontier.drop_last());
                    if contains_domain(&visited, &domain) {
                        assert(now.settle() == now.skip().settle());
                        assert(now.skip() == (Progress {
                            frontier: domain_views(frontier@),
                            ..start
                        }));
                    } else {
                        assert(now.settle() == now);
                        proof {
                            lemma_begin_wf(now);
                        }
                        visited.push(domain.clone());
                        assert(domain_views(visited@) =~= now.visited.push(domain@));
                        let state = Traversal {
                            root,
                            target,
                            frontier,
                            visited,
                            root_record,
                            included,
                            found,
                        };
                        assert(state@ == now.begin());
                        assert(state@.visited.last() == domain@);
                        return Step::Query(Query { state, domain });
                    }
                },
            }
        }
    }
}

impl Query {
    #[verifier::type_invariant]
    spec fn inv(self) -> bool {
        self.state@.visited.contains(self.domain@)
    }

    /// The domain that is to be looked up.
    pub closed spec fn asked(&self) -> Seq<char> {
        self.domain@
    }

    /// The state of the traversal that waits.
    pub closed spec fn progress(&self) -> Progress {
        self.state@
    }

    /// The domain that is to be looked up.
    pub fn domain(&self) -> (domain: &String)
        ensures
            domain@ == self.asked(),
    {
        &self.domain
    }

    /// Goes on with the record of the query's domain.
    pub fn visit(self, record: SpfRecord) -> (next: Traversal)
        ensures
            next@ == self.progress().absorb(
                self.asked(),
                record.raw_text@,
                mechanism_views(record.mechanisms@),
            ),
    {
        proof {
            use_type_invariant(&self);
        }
        let Query { state, domain } = self;
        let SpfRecord { raw_text: text, mechanisms } = record;
        proof {
            use_type_invariant(&state);
            lemma_absorb_wf(state@, domain@, text@, mechanism_views(mechanisms@));
        }
        let ghost before = state@;
        let Traversal { root, target, frontier, visited, root_record, included, found } = state;
        let mut frontier = frontier;
        let mut included = included;
        let mut root_record = root_record;
        let mut found = found;
        let includes = collect_targets(&mechanisms, MechanismKind::Include);
        append_domains(&mut included, &includes);
        if domain == root {
            root_record = Some(text);
        }
        if contains_domain(&includes, &target) {
            found = true;
        } else {
            let redirects = collect_followed_redirects(&mechanisms);
            append_domains(&mut frontier, &redirects);
            append_domains(&mut frontier, &includes);
        }
        let next = Traversal { root, target, frontier, visited, root_record, included, found };
        assert(next@ == before.absorb(domain@, text@, mechanism_views(mechanisms@)));
        next
    }

    /// Goes on with the reply of the record source to the lookup of the
    /// query's domain. A failed lookup and a record that does not parse end
    /// the traversal; a domain without a record is a dead end, and the
    /// traversal goes on from the rest of the line.
    pub fn answer(self, reply: Result<Option<String>, LookupFailed>) -> (outcome: Result<
        Traversal,
        ResolverError,
    >)
        ensures
            match outcome {
                Ok(next) => self.progress().answered(self.asked(), answer_view(reply)) == Ok::<
                    Progress,
                    Failure,
                >(next@),
                Err(error) => self.progress().answered(self.asked(), answer_view(reply)) == Err::<
                    Progress,
                    Failure,
                >(error@),
            },
    {
        match reply {
            Err(_) => {
                let Query { state, domain } = self;
                Err(ResolverError::RecordSourceError { domain })
            },
            Ok(None) => {
                let Query { state, domain } = self;
                Ok(state)
            },
            Ok(Some(text)) => {
                match SpfRecord::parse(text) {
                    Err(error) => Err(error),
                    Ok(record) => Ok(self.visit(record)),
                }
            },
        }
    }
}

} // verus!
