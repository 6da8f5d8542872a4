//! Facts about filtered sequences.

use vstd::prelude::*;

verus! {

/// Where each item that passes a filter stood before: the places rise along
/// the result.
pub proof fn lemma_filter_places<A>(items: Seq<A>, keep: spec_fn(A) -> bool) -> (places: Seq<int>)
    ensures
        places.len() == items.filter(keep).len(),
        forall|i: int|
            0 <= i < places.len() ==> 0 <= #[trigger] places[i] < items.len() && items[places[i]]
                == items.filter(keep)[i],
        forall|i: int, j: int|
            0 <= i < j < places.len() ==> #[trigger] places[i] < #[trigger] places[j],
    decreases items.len(),
{
    reveal(Seq::filter);
    if items.len() == 0 {
        Seq::empty()
    } else {
        let front = lemma_filter_places(items.drop_last(), keep);
        if keep(items.last()) {
            front.push(items.len() - 1)
        } else {
            front
        }
    }
}

/// A filter that every item passes changes nothing.
pub proof fn lemma_filter_all<A>(items: Seq<A>, keep: spec_fn(A) -> bool)
    requires
        forall|i: int| 0 <= i < items.len() ==> keep(#[trigger] items[i]),
    ensures
        items.filter(keep) == items,
    decreases items.len(),
{
    reveal(Seq::filter);
    if items.len() != 0 {
        assert forall|i: int| 0 <= i < items.drop_last().len() implies keep(
            #[trigger] items.drop_last()[i],
        ) by {
            assert(items.drop_last()[i] == items[i]);
        }
        lemma_filter_all(items.drop_last(), keep);
        assert(keep(items[items.len() - 1]));
        assert(items.drop_last().push(items.last()) =~= items);
    }
}

/// Two filters that agree on every item give the same result.
pub proof fn lemma_filter_agree<A>(
    items: Seq<A>,
    keep: spec_fn(A) -> bool,
    other: spec_fn(A) -> bool,
)
    requires
        forall|i: int| 0 <= i < items.len() ==> keep(#[trigger] items[i]) == other(items[i]),
    ensures
        items.filter(keep) == items.filter(other),
    decreases items.len(),
{
    reveal(Seq::filter);
    if items.len() != 0 {
        assert forall|i: int| 0 <= i < items.drop_last().len() implies keep(
            #[trigger] items.drop_last()[i],
        ) == other(items.drop_last()[i]) by {
            assert(items.drop_last()[i] == items[i]);
        }
        lemma_filter_agree(items.drop_last(), keep, other);
        assert(keep(items[items.len() - 1]) == other(items[items.len() - 1]));
    }
}

/// An item that passes a filter stands in the result.
pub proof fn lemma_filter_keeps<A>(items: Seq<A>, keep: spec_fn(A) -> bool, at: int) -> (place:
    int)
    requires
        0 <= at < items.len(),
        keep(items[at]),
    ensures
        0 <= place < items.filter(keep).len(),
        items.filter(keep)[place] == items[at],
    decreases items.len(),
{
    reveal(Seq::filter);
    if at == items.len() - 1 {
        items.drop_last().filter(keep).len() as int
    } else {
        lemma_filter_keeps(items.drop_last(), keep, at)
    }
}

/// How a filter treats the last item: it stands last in the result if it
/// passes, and is left out if it does not.
pub proof fn lemma_filter_last<A>(items: Seq<A>, keep: spec_fn(A) -> bool)
    requires
        items.len() != 0,
    ensures
        keep(items.last()) ==> items.filter(keep) == items.drop_last().filter(keep).push(
            items.last(),
        ),
        !keep(items.last()) ==> items.filter(keep) == items.drop_last().filter(keep),
{
    reveal(Seq::filter);
}

} // verus!
