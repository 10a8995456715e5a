//! Lists of domain names.
//!
//! A domain is the text it was received as: two spellings of one DNS name are
//! two domains.

use vstd::prelude::*;

verus! {

/// The texts of a list of domains, in the same order.
pub open spec fn domain_views(list: Seq<String>) -> Seq<Seq<char>> {
    list.map_values(|d: String| d@)
}

/// Whether `domain` occurs in `list`.
pub fn contains_domain(list: &Vec<String>, domain: &String) -> (found: bool)
    ensures
        found == domain_views(list@).contains(domain@),
{
    let mut i: usize = 0;
    while i < list.len()
        invariant
            i <= list.len(),
            forall|j: int| 0 <= j < i ==> domain_views(list@)[j] != domain@,
        decreases list.len() - i,
    {
        if list[i] == *domain {
            assert(domain_views(list@)[i as int] == domain@);
            return true;
        }
        i += 1;
    }
    false
}

/// Appends a copy of every domain of `more` to `list`, in order.
pub fn append_domains(list: &mut Vec<String>, more: &Vec<String>)
    ensures
        domain_views(final(list)@) == domain_views(old(list)@) + domain_views(more@),
{
    let mut i: usize = 0;
    while i < more.len()
        invariant
            i <= more.len(),
            domain_views(list@) == domain_views(old(list)@) + domain_views(more@).take(i as int),
        decreases more.len() - i,
    {
        let ghost before = list@;
        let copy = more[i].clone();
        list.push(copy);
        assert(domain_views(list@) =~= domain_views(before).push(more@[i as int]@));
        assert(domain_views(more@).take(i + 1) =~= domain_views(more@).take(i as int).push(
            more@[i as int]@,
        ));
        i += 1;
    }
    assert(domain_views(more@).take(more.len() as int) =~= domain_views(more@));
}

} // verus!
