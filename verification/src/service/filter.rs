//! Subscription filters: which projects a peer wants to hear about.

use crate::identity::Id;
use vstd::prelude::*;

verus! {

/// Whether a list of identifiers holds `id`.
pub fn ids_contain(ids: &Vec<Id>, id: &Id) -> (r: bool)
    ensures
        r == ids@.contains(*id),
{
    let n: usize = ids.len();
    let mut i: usize = 0;
    while i < n
        invariant
            n == ids@.len(),
            i <= n,
            forall|j: int| 0 <= j < i ==> ids@[j] != *id,
        decreases n - i,
    {
        if ids[i] == *id {
            return true;
        }
        i = i + 1;
    }
    false
}

/// A copy of a list of identifiers.
pub fn ids_clone(ids: &Vec<Id>) -> (r: Vec<Id>)
    ensures
        r@ == ids@,
{
    let mut r: Vec<Id> = Vec::new();
    let n: usize = ids.len();
    let mut i: usize = 0;
    while i < n
        invariant
            n == ids@.len(),
            i <= n,
            r@ == ids@.take(i as int),
        decreases n - i,
    {
        r.push(ids[i]);
        assert(r@ =~= ids@.take(i + 1));
        i = i + 1;
    }
    assert(ids@.take(n as int) =~= ids@);
    r
}

/// A set of projects that a peer subscribes to.
#[derive(Debug, PartialEq, Eq)]
pub enum Filter {
    /// Every project.
    All,
    /// The listed projects and no others.
    Only(Vec<Id>),
}

impl View for Filter {
    type V = Set<Id>;

    open spec fn view(&self) -> Set<Id> {
        match self {
            Filter::All => Set::full(),
            Filter::Only(ids) => ids@.to_set(),
        }
    }
}

impl Filter {
    /// The filter that lets the listed projects through.
    pub fn new(ids: &Vec<Id>) -> (filter: Filter)
        ensures
            filter@ == ids@.to_set(),
    {
        Filter::Only(ids_clone(ids))
    }

    /// The filter that lets every project through.
    pub fn default() -> (filter: Filter)
        ensures
            filter@ == Set::<Id>::full(),
    {
        Filter::All
    }

    /// Whether the filter lets `id` through.
    pub fn contains(&self, id: &Id) -> (r: bool)
        ensures
            r == self@.contains(*id),
    {
        match self {
            Filter::All => true,
            Filter::Only(ids) => ids_contain(ids, id),
        }
    }
}

impl Clone for Filter {
    fn clone(&self) -> (r: Filter)
        ensures
            r@ == self@,
    {
        match self {
            Filter::All => Filter::All,
            Filter::Only(ids) => Filter::Only(ids_clone(ids)),
        }
    }
}

} // verus!
