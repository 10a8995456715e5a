//! The mechanisms of an SPF record, as the traversal reads them.

use vstd::prelude::*;

use crate::domain::domain_views;

verus! {

/// The kinds of mechanism that the traversal tells apart.
#[derive(Clone, Copy, Debug, PartialEq, Eq, Structural)]
pub enum MechanismKind {
    Include,
    Redirect,
    All,
    Other,
}

/// One mechanism of a record.
///
/// `raw` holds the text that follows the mechanism's name (the domain of an
/// `include` or a `redirect`), or the bare name where nothing follows it.
#[derive(Clone, Debug, PartialEq, Eq)]
pub struct Mechanism {
    pub kind: MechanismKind,
    pub raw: String,
}

/// The mathematical value of a [`Mechanism`].
pub struct MechanismView {
    pub kind: MechanismKind,
    pub raw: Seq<char>,
}

impl View for Mechanism {
    type V = MechanismView;

    open spec fn view(&self) -> MechanismView {
        MechanismView { kind: self.kind, raw: self.raw@ }
    }
}

impl MechanismView {
    /// The domain that the mechanism hands over to: the text after the name
    /// of an `include` or a `redirect`, and none for any other mechanism.
    pub open spec fn target_domain(self) -> Option<Seq<char>> {
        match self.kind {
            MechanismKind::Include | MechanismKind::Redirect => Some(self.raw),
            _ => None,
        }
    }
}

impl Mechanism {
    /// The domain that the mechanism hands over to, where it is an `include`
    /// or a `redirect`.
    pub fn target_domain(&self) -> (target: Option<String>)
        ensures
            match target {
                Some(domain) => self@.target_domain() == Some(domain@),
                None => self@.target_domain() is None,
            },
    {
        match self.kind {
            MechanismKind::Include | MechanismKind::Redirect => Some(self.raw.clone()),
            _ => None,
        }
    }
}

/// The views of a list of mechanisms, in the same order.
pub open spec fn mechanism_views(list: Seq<Mechanism>) -> Seq<MechanismView> {
    list.map_values(|m: Mechanism| m@)
}

/// The text after the name of `mechanism`, where it is of the given kind.
pub open spec fn target_of(mechanism: MechanismView, kind: MechanismKind) -> Option<Seq<char>> {
    if mechanism.kind == kind {
        Some(mechanism.raw)
    } else {
        None
    }
}

/// The domains that the mechanisms of the given kind name, in record order.
pub open spec fn targets_of(list: Seq<MechanismView>, kind: MechanismKind) -> Seq<Seq<char>> {
    list.filter_map(|m: MechanismView| target_of(m, kind))
}

/// The domains that a record includes, in record order.
pub open spec fn include_targets(list: Seq<MechanismView>) -> Seq<Seq<char>> {
    targets_of(list, MechanismKind::Include)
}

/// Whether a record holds an `all` mechanism, at any place.
pub open spec fn has_all(list: Seq<MechanismView>) -> bool {
    exists|i: int| 0 <= i < list.len() && (#[trigger] list[i]).kind == MechanismKind::All
}

/// The domains that a record redirects to and that are to be followed: none
/// where the record holds an `all` mechanism, which overrides any `redirect`.
pub open spec fn followed_redirects(list: Seq<MechanismView>) -> Seq<Seq<char>> {
    if has_all(list) {
        Seq::empty()
    } else {
        targets_of(list, MechanismKind::Redirect)
    }
}

/// Collects the domains named by the mechanisms of one kind.
pub fn collect_targets(list: &Vec<Mechanism>, kind: MechanismKind) -> (targets: Vec<String>)
    ensures
        domain_views(targets@) == targets_of(mechanism_views(list@), kind),
{
    let ghost views = mechanism_views(list@);
    let ghost pick = |m: MechanismView| target_of(m, kind);
    let mut targets: Vec<String> = Vec::new();
    let mut i: usize = 0;
    assert(views.take(0) =~= Seq::empty());
    while i < list.len()
        invariant
            i <= list.len(),
            views == mechanism_views(list@),
            pick == |m: MechanismView| target_of(m, kind),
            domain_views(targets@) == views.take(i as int).filter_map(pick),
        decreases list.len() - i,
    {
        proof {
            views.lemma_filter_map_take_succ(pick, i as int);
        }
        if list[i].kind == kind {
            let raw = list[i].raw.clone();
            targets.push(raw);
        }
        i += 1;
    }
    assert(views.take(list.len() as int) == views);
    targets
}

/// Tells whether a record holds an `all` mechanism.
pub fn contains_all(list: &Vec<Mechanism>) -> (found: bool)
    ensures
        found == has_all(mechanism_views(list@)),
{
    let mut i: usize = 0;
    while i < list.len()
        invariant
            i <= list.len(),
            forall|j: int|
                0 <= j < i ==> (#[trigger] mechanism_views(list@)[j]).kind != MechanismKind::All,
        decreases list.len() - i,
    {
        if list[i].kind == MechanismKind::All {
            assert(mechanism_views(list@)[i as int].kind == MechanismKind::All);
            return true;
        }
        i += 1;
    }
    false
}

/// Collects the redirects of a record that are to be followed.
pub fn collect_followed_redirects(list: &Vec<Mechanism>) -> (targets: Vec<String>)
    ensures
        domain_views(targets@) == followed_redirects(mechanism_views(list@)),
{
    if contains_all(list) {
        Vec::new()
    } else {
        collect_targets(list, MechanismKind::Redirect)
    }
}

} // verus!
