//! The per-task visited set of the recursive dependency traversal. Backed by
//! a hash set of the `hashbrown` crate; its mathematical contents are given
//! by `visited_contents`.

use vstd::prelude::*;

verus! {

/// Names already traversed during one task's planning call.
#[verifier::external_body]
pub struct VisitedSet {
    inner: hashbrown::HashSet<String>,
}

/// The contents of a `VisitedSet`, as a set of character sequences.
pub uninterp spec fn visited_contents(s: VisitedSet) -> Set<Seq<char>>;

/// Relies on hashbrown::HashSet::new: a freshly created set is empty.
#[verifier::external_body]
pub fn visited_new() -> (r: VisitedSet)
    ensures
        visited_contents(r) == Set::<Seq<char>>::empty(),
{
    VisitedSet { inner: hashbrown::HashSet::new() }
}

/// Relies on hashbrown::HashSet::insert: afterwards the contents also hold
/// the given name.
#[verifier::external_body]
pub fn visited_insert(s: &mut VisitedSet, name: &str)
    ensures
        visited_contents(*final (s)) == visited_contents(*old(s)).insert(name@),
{
    s.inner.insert(name.to_owned());
}

/// Relies on hashbrown::HashSet::contains: membership in the contents.
#[verifier::external_body]
pub fn visited_contains(s: &VisitedSet, name: &str) -> (r: bool)
    ensures
        r == visited_contents(*s).contains(name@),
{
    s.inner.contains(name)
}

} // verus!
