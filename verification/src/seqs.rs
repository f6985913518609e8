//! What filtering a sequence keeps.
use vstd::prelude::*;

verus! {

/// A filter keeps nothing of a list of which nothing passes.
pub proof fn lemma_filter_none<A>(list: Seq<A>, pred: spec_fn(A) -> bool)
    requires
        forall|i: int| 0 <= i < list.len() ==> !pred(#[trigger] list[i]),
    ensures
        list.filter(pred) == Seq::<A>::empty(),
    decreases list.len(),
{
    reveal(Seq::filter);
    if list.len() > 0 {
        let rest = list.drop_last();
        assert forall|i: int| 0 <= i < rest.len() implies !pred(#[trigger] rest[i]) by {
            assert(rest[i] == list[i]);
        }
        lemma_filter_none(rest, pred);
        assert(!pred(list[list.len() - 1]));
    }
}

/// A filter keeps all of a list of which everything passes.
pub proof fn lemma_filter_all<A>(list: Seq<A>, pred: spec_fn(A) -> bool)
    requires
        forall|i: int| 0 <= i < list.len() ==> pred(#[trigger] list[i]),
    ensures
        list.filter(pred) == list,
    decreases list.len(),
{
    reveal(Seq::filter);
    if list.len() > 0 {
        let rest = list.drop_last();
        assert forall|i: int| 0 <= i < rest.len() implies pred(#[trigger] rest[i]) by {
            assert(rest[i] == list[i]);
        }
        lemma_filter_all(rest, pred);
        assert(pred(list[list.len() - 1]));
        assert(rest.push(list.last()) =~= list);
    }
}

/// What a filter keeps stood in the list.
pub proof fn lemma_filter_source<A>(list: Seq<A>, pred: spec_fn(A) -> bool, k: int) -> (i: int)
    requires
        0 <= k < list.filter(pred).len(),
    ensures
        0 <= i < list.len(),
        list[i] == list.filter(pred)[k],
    decreases list.len(),
{
    reveal(Seq::filter);
    let rest = list.drop_last();
    if k < rest.filter(pred).len() {
        lemma_filter_source(rest, pred, k)
    } else {
        list.len() - 1
    }
}

} // verus!
