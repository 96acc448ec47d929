//! Small sequence facts shared by the expansion and planning proofs.

use vstd::prelude::*;

verus! {

/// Filtering a sequence extended by one element.
pub proof fn lemma_filter_push<A>(s: Seq<A>, p: spec_fn(A) -> bool, x: A)
    ensures
        s.push(x).filter(p) == if p(x) {
            s.filter(p).push(x)
        } else {
            s.filter(p)
        },
{
    reveal(Seq::filter);
    assert(s.push(x).drop_last() =~= s);
    assert(s.push(x).last() == x);
}

/// The empty sequence filters to itself.
pub proof fn lemma_filter_empty<A>(p: spec_fn(A) -> bool)
    ensures
        Seq::<A>::empty().filter(p) == Seq::<A>::empty(),
{
    reveal(Seq::filter);
}

/// Mapping a sequence extended by one element.
pub proof fn lemma_map_values_push<A, B>(s: Seq<A>, f: spec_fn(A) -> B, x: A)
    ensures
        s.push(x).map_values(f) == s.map_values(f).push(f(x)),
{
    assert(s.push(x).map_values(f) =~= s.map_values(f).push(f(x)));
}

/// Inserting anywhere adds one occurrence to the multiset.
pub proof fn lemma_to_multiset_insert<A>(s: Seq<A>, i: int, x: A)
    requires
        0 <= i <= s.len(),
    ensures
        s.insert(i, x).to_multiset() == s.to_multiset().insert(x),
{
    broadcast use vstd::seq_lib::group_to_multiset_ensures;

    let s0 = s.subrange(0, i);
    let s1 = s.subrange(i, s.len() as int);
    assert(s.insert(i, x) == s0.push(x) + s1);
    vstd::seq_lib::lemma_multiset_commutative(s0.push(x), s1);
    vstd::seq_lib::lemma_multiset_commutative(s0, s1);
    assert(s =~= s0 + s1);
    assert(s0.push(x).to_multiset() == s0.to_multiset().insert(x));
    assert(s.insert(i, x).to_multiset() =~= s.to_multiset().insert(x)) by {
        assert(s.insert(i, x).to_multiset() == s0.to_multiset().insert(x).add(s1.to_multiset()));
        assert(s.to_multiset() == s0.to_multiset().add(s1.to_multiset()));
    }
}

/// Removing the last element takes one occurrence out of the multiset.
pub proof fn lemma_to_multiset_drop_last<A>(s: Seq<A>)
    requires
        s.len() > 0,
    ensures
        s.to_multiset() == s.drop_last().to_multiset().insert(s.last()),
{
    broadcast use vstd::seq_lib::group_to_multiset_ensures;

    assert(s =~= s.drop_last().push(s.last()));
}

/// A prefix extended by the next element.
pub proof fn lemma_take_push<A>(s: Seq<A>, i: int)
    requires
        0 <= i < s.len(),
    ensures
        s.take(i + 1) == s.take(i).push(s[i]),
{
    assert(s.take(i + 1) =~= s.take(i).push(s[i]));
}

} // verus!
