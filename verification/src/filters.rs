//! Facts on filtered sequences.

use vstd::prelude::*;

verus! {

/// Filtering with one more element at the end.
pub proof fn filter_of_push<A>(s: Seq<A>, a: A, pred: spec_fn(A) -> bool)
    ensures
        s.push(a).filter(pred) == if pred(a) {
            s.filter(pred).push(a)
        } else {
            s.filter(pred)
        },
{
    reveal(Seq::filter);
    assert(s.push(a).drop_last() =~= s);
}

/// Filtering two sequences one behind the other.
pub proof fn filter_of_parts<A>(a: Seq<A>, b: Seq<A>, pred: spec_fn(A) -> bool)
    ensures
        (a + b).filter(pred) == a.filter(pred) + b.filter(pred),
    decreases b.len(),
{
    reveal(Seq::filter);
    if b.len() > 0 {
        assert((a + b).drop_last() =~= a + b.drop_last());
        filter_of_parts(a, b.drop_last(), pred);
        assert((a + b).filter(pred) =~= a.filter(pred) + b.filter(pred));
    } else {
        assert(a + b =~= a);
        assert(a.filter(pred) + b.filter(pred) =~= a.filter(pred));
    }
}

/// Filtering what is all kept.
pub proof fn filter_of_all<A>(s: Seq<A>, pred: spec_fn(A) -> bool)
    requires
        forall|i: int| 0 <= i < s.len() ==> pred(#[trigger] s[i]),
    ensures
        s.filter(pred) == s,
    decreases s.len(),
{
    reveal(Seq::filter);
    if s.len() > 0 {
        let front = s.drop_last();
        assert forall|i: int| 0 <= i < front.len() implies pred(#[trigger] front[i]) by {
            assert(front[i] == s[i]);
        }
        filter_of_all(front, pred);
        assert(pred(s[s.len() - 1]));
        assert(s =~= front.push(s.last()));
    } else {
        assert(s.filter(pred) =~= s);
    }
}

/// Filtering what is all dropped.
pub proof fn filter_of_none<A>(s: Seq<A>, pred: spec_fn(A) -> bool)
    requires
        forall|i: int| 0 <= i < s.len() ==> !pred(#[trigger] s[i]),
    ensures
        s.filter(pred) == Seq::<A>::empty(),
    decreases s.len(),
{
    reveal(Seq::filter);
    if s.len() > 0 {
        let front = s.drop_last();
        assert forall|i: int| 0 <= i < front.len() implies !pred(#[trigger] front[i]) by {
            assert(front[i] == s[i]);
        }
        filter_of_none(front, pred);
        assert(!pred(s[s.len() - 1]));
    } else {
        assert(s.filter(pred) =~= Seq::<A>::empty());
    }
}

} // verus!
