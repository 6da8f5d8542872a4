//! The order of the index: by title, ignoring case, ties in the order in
//! which they came.

use crate::filters::{lemma_filter_last, lemma_filter_places};
use crate::library::{views, Tune, TuneView};
use crate::text::{lemma_text_le_is_total_order, lowercase_of, text_le, text_no_later, to_lowercase};
use vstd::prelude::*;
use vstd::seq_lib::*;

verus! {

/// The title under which a tune is shown: its title, or its file name where
/// it has no title.
pub open spec fn display_title(tune: TuneView) -> Seq<char> {
    match tune.title {
        Some(title) => title,
        None => tune.filename,
    }
}

/// The key by which a tune is ordered: its display title in lower case.
pub open spec fn title_key(tune: TuneView) -> Seq<char> {
    lowercase_of(display_title(tune))
}

/// `a` may stand before `b`: the key of `a` comes no later than that of `b`.
pub open spec fn title_le(a: TuneView, b: TuneView) -> bool {
    text_le(title_key(a), title_key(b))
}

/// No tune stands before one with an earlier key.
pub open spec fn is_ordered(tunes: Seq<TuneView>) -> bool {
    forall|i: int, j: int| 0 <= i <= j < tunes.len() ==> title_le(#[trigger] tunes[i], #[trigger] tunes[j])
}

/// The tunes whose key is `key`.
pub open spec fn has_key(key: Seq<char>) -> spec_fn(TuneView) -> bool {
    |tune: TuneView| title_key(tune) == key
}

/// Where `tune` goes into `sorted`: behind the last tune that may stand
/// before it.
pub open spec fn place_of(sorted: Seq<TuneView>, tune: TuneView) -> int
    decreases sorted.len(),
{
    if sorted.len() == 0 || title_le(sorted.last(), tune) {
        sorted.len() as int
    } else {
        place_of(sorted.drop_last(), tune)
    }
}

/// `sorted` with `tune` put into its place.
pub open spec fn placed(sorted: Seq<TuneView>, tune: TuneView) -> Seq<TuneView> {
    sorted.insert(place_of(sorted, tune), tune)
}

/// The tunes in the order of the index: each in turn is put into its place
/// among those that came before it.
pub open spec fn ordered_by_title(tunes: Seq<TuneView>) -> Seq<TuneView>
    decreases tunes.len(),
{
    if tunes.len() == 0 {
        tunes
    } else {
        placed(ordered_by_title(tunes.drop_last()), tunes.last())
    }
}

/// The place of a tune is behind a tune that may stand before it, unless it
/// is the front, and before every tune behind it that must not.
pub proof fn lemma_place_of(sorted: Seq<TuneView>, tune: TuneView)
    ensures
        0 <= place_of(sorted, tune) <= sorted.len(),
        place_of(sorted, tune) == 0 || title_le(sorted[place_of(sorted, tune) - 1], tune),
        forall|k: int|
            place_of(sorted, tune) <= k < sorted.len() ==> !title_le(#[trigger] sorted[k], tune),
    decreases sorted.len(),
{
    if sorted.len() != 0 && !title_le(sorted.last(), tune) {
        let front = sorted.drop_last();
        lemma_place_of(front, tune);
        assert forall|k: int| place_of(sorted, tune) <= k < sorted.len() implies !title_le(
            #[trigger] sorted[k],
            tune,
        ) by {
            if k < front.len() {
                assert(sorted[k] == front[k]);
            }
        }
    }
}

/// A position with the two properties of the place of a tune is its place.
pub proof fn lemma_place_is_unique(sorted: Seq<TuneView>, tune: TuneView, at: int)
    requires
        0 <= at <= sorted.len(),
        at == 0 || title_le(sorted[at - 1], tune),
        forall|k: int| at <= k < sorted.len() ==> !title_le(#[trigger] sorted[k], tune),
    ensures
        place_of(sorted, tune) == at,
    decreases sorted.len(),
{
    if sorted.len() != 0 && at < sorted.len() {
        assert(!title_le(sorted[sorted.len() - 1], tune));
        lemma_place_is_unique(sorted.drop_last(), tune, at);
    }
}

/// Putting a tune into its place keeps an ordered sequence ordered.
pub proof fn lemma_placed_is_ordered(sorted: Seq<TuneView>, tune: TuneView)
    requires
        is_ordered(sorted),
    ensures
        is_ordered(placed(sorted, tune)),
{
    let at = place_of(sorted, tune);
    let after = placed(sorted, tune);
    lemma_place_of(sorted, tune);
    assert forall|i: int, j: int| 0 <= i <= j < after.len() implies title_le(
        #[trigger] after[i],
        #[trigger] after[j],
    ) by {
        let a = after[i];
        let b = after[j];
        lemma_text_le_is_total_order(title_key(a), title_key(b), title_key(b));
        if i == j {
        } else if j == at {
            // `a` stands before the place: it is no later than the tune before the place.
            assert(a == sorted[i]);
            assert(title_le(sorted[i], sorted[at - 1]));
            lemma_text_le_is_total_order(title_key(a), title_key(sorted[at - 1]), title_key(tune));
        } else if i == at {
            // `b` stands behind the place: it must not stand before the tune.
            assert(b == sorted[j - 1]);
            assert(!title_le(sorted[j - 1], tune));
        } else {
            let from = if i < at { i } else { i - 1 };
            let to = if j < at { j } else { j - 1 };
            assert(a == sorted[from] && b == sorted[to]);
        }
    }
}

/// The tunes in index order are ordered.
pub proof fn lemma_ordered_by_title_is_ordered(tunes: Seq<TuneView>)
    ensures
        is_ordered(ordered_by_title(tunes)),
    decreases tunes.len(),
{
    if tunes.len() != 0 {
        lemma_ordered_by_title_is_ordered(tunes.drop_last());
        lemma_placed_is_ordered(ordered_by_title(tunes.drop_last()), tunes.last());
    }
}

/// Ordering neither loses nor invents a tune: the result holds each tune as
/// often as the input does.
pub proof fn lemma_ordered_by_title_is_permutation(tunes: Seq<TuneView>)
    ensures
        ordered_by_title(tunes).to_multiset() == tunes.to_multiset(),
        ordered_by_title(tunes).len() == tunes.len(),
    decreases tunes.len(),
{
    broadcast use {to_multiset_build, to_multiset_insert};

    if tunes.len() != 0 {
        let before = ordered_by_title(tunes.drop_last());
        lemma_ordered_by_title_is_permutation(tunes.drop_last());
        lemma_place_of(before, tunes.last());
        assert(tunes =~= tunes.drop_last().push(tunes.last()));
    } else {
        assert(ordered_by_title(tunes) =~= tunes);
    }
}

/// Ordering keeps the set of tunes.
pub proof fn lemma_ordered_by_title_has_same_tunes(tunes: Seq<TuneView>, tune: TuneView)
    ensures
        ordered_by_title(tunes).contains(tune) <==> tunes.contains(tune),
{
    lemma_ordered_by_title_is_permutation(tunes);
    to_multiset_contains(ordered_by_title(tunes), tune);
    to_multiset_contains(tunes, tune);
}

/// Putting a tune into its place leaves the tunes of each key in their
/// order, the new tune last among those of its own key.
pub proof fn lemma_placed_keeps_ties(sorted: Seq<TuneView>, tune: TuneView, key: Seq<char>)
    ensures
        placed(sorted, tune).filter(has_key(key)) == sorted.push(tune).filter(has_key(key)),
    decreases sorted.len(),
{
    broadcast use Seq::lemma_filter_push;

    lemma_place_of(sorted, tune);
    if sorted.len() == 0 || title_le(sorted.last(), tune) {
        assert(placed(sorted, tune) =~= sorted.push(tune));
    } else {
        let front = sorted.drop_last();
        let last = sorted.last();
        lemma_place_of(front, tune);
        lemma_placed_keeps_ties(front, tune, key);
        assert(placed(sorted, tune) =~= placed(front, tune).push(last));
        assert(sorted =~= front.push(last));
        // Both cannot have the key: then `last` could stand before `tune`.
        lemma_text_le_is_total_order(title_key(last), title_key(tune), title_key(tune));
        assert(!(has_key(key)(last) && has_key(key)(tune)));
        if has_key(key)(last) {
            assert(sorted.push(tune).filter(has_key(key)) == sorted.filter(has_key(key)));
            assert(front.push(tune).filter(has_key(key)) == front.filter(has_key(key)));
        } else {
            assert(sorted.filter(has_key(key)) == front.filter(has_key(key)));
        }
    }
}

/// The order is stable: the tunes of one key stand in the result in the
/// order in which they stood in the input.
pub proof fn lemma_ordered_by_title_is_stable(tunes: Seq<TuneView>, key: Seq<char>)
    ensures
        ordered_by_title(tunes).filter(has_key(key)) == tunes.filter(has_key(key)),
    decreases tunes.len(),
{
    broadcast use Seq::lemma_filter_push;

    if tunes.len() != 0 {
        let front = tunes.drop_last();
        lemma_ordered_by_title_is_stable(front, key);
        lemma_placed_keeps_ties(ordered_by_title(front), tunes.last(), key);
        assert(tunes =~= front.push(tunes.last()));
    }
}

/// Ordering what is ordered changes nothing.
pub proof fn lemma_ordered_by_title_of_ordered(tunes: Seq<TuneView>)
    requires
        is_ordered(tunes),
    ensures
        ordered_by_title(tunes) == tunes,
    decreases tunes.len(),
{
    if tunes.len() != 0 {
        let front = tunes.drop_last();
        assert(is_ordered(front)) by {
            assert forall|i: int, j: int| 0 <= i <= j < front.len() implies title_le(
                #[trigger] front[i],
                #[trigger] front[j],
            ) by {
                assert(front[i] == tunes[i] && front[j] == tunes[j]);
            }
        }
        lemma_ordered_by_title_of_ordered(front);
        if front.len() != 0 {
            assert(title_le(tunes[front.len() - 1], tunes[tunes.len() - 1]));
            assert(front.last() == tunes[front.len() - 1]);
        }
        assert(front.insert(front.len() as int, tunes.last()) =~= tunes);
    }
}

/// Two ordered sequences that hold, for each key, the same tunes in the same
/// order are the same sequence.
pub proof fn lemma_order_is_determined(first: Seq<TuneView>, second: Seq<TuneView>)
    requires
        is_ordered(first),
        is_ordered(second),
        forall|key: Seq<char>|
            #[trigger] first.filter(has_key(key)) == second.filter(has_key(key)),
    ensures
        first == second,
    decreases first.len(),
{
    if first.len() == 0 {
        if second.len() != 0 {
            let key = title_key(second.last());
            lemma_filter_last(second, has_key(key));
            assert(first.filter(has_key(key)) == second.filter(has_key(key)));
            assert(first.filter(has_key(key)).len() == 0) by {
                reveal(Seq::filter);
            }
        }
        assert(first =~= second);
    } else {
        let x = first.last();
        let key = title_key(x);
        lemma_filter_last(first, has_key(key));
        assert(first.filter(has_key(key)) == second.filter(has_key(key)));
        assert(second.len() != 0) by {
            if second.len() == 0 {
                assert(second.filter(has_key(key)).len() == 0) by {
                    reveal(Seq::filter);
                }
            }
        }
        let y = second.last();
        let other = title_key(y);
        lemma_filter_last(second, has_key(other));
        assert(first.filter(has_key(other)) == second.filter(has_key(other)));
        // Each of the two last tunes stands in the other sequence, so neither
        // key comes later than the other.
        let places = lemma_filter_places(first, has_key(other));
        let i = places[places.len() - 1];
        assert(first[i] == y);
        assert(title_le(first[i], first[first.len() - 1]));
        let places = lemma_filter_places(second, has_key(key));
        let j = places[places.len() - 1];
        assert(second[j] == x);
        assert(title_le(second[j], second[second.len() - 1]));
        lemma_text_le_is_total_order(key, other, key);
        assert(key == other);
        assert(x == y);
        // Without them the two sequences are as alike as before.
        let front = first.drop_last();
        let rest = second.drop_last();
        assert(is_ordered(front)) by {
            assert forall|i: int, j: int| 0 <= i <= j < front.len() implies title_le(
                #[trigger] front[i],
                #[trigger] front[j],
            ) by {
                assert(front[i] == first[i] && front[j] == first[j]);
            }
        }
        assert(is_ordered(rest)) by {
            assert forall|i: int, j: int| 0 <= i <= j < rest.len() implies title_le(
                #[trigger] rest[i],
                #[trigger] rest[j],
            ) by {
                assert(rest[i] == second[i] && rest[j] == second[j]);
            }
        }
        assert forall|any: Seq<char>| #[trigger]
            front.filter(has_key(any)) == rest.filter(has_key(any)) by {
            lemma_filter_last(first, has_key(any));
            lemma_filter_last(second, has_key(any));
            assert(first.filter(has_key(any)) == second.filter(has_key(any)));
            if any == key {
                assert(front.filter(has_key(any)) =~= first.filter(has_key(any)).drop_last());
                assert(rest.filter(has_key(any)) =~= second.filter(has_key(any)).drop_last());
            }
        }
        lemma_order_is_determined(front, rest);
        assert(first =~= front.push(x));
        assert(second =~= rest.push(y));
    }
}

/// The order of the index is the stable order by key, and nothing else is:
/// a sequence that is ordered and holds, for each key, the tunes of that key
/// in the order in which they were given, is the index order of what was
/// given.
pub proof fn lemma_ordered_by_title_is_the_stable_order(
    tunes: Seq<TuneView>,
    ordered: Seq<TuneView>,
)
    requires
        is_ordered(ordered),
        forall|key: Seq<char>| #[trigger] ordered.filter(has_key(key)) == tunes.filter(has_key(key)),
    ensures
        ordered == ordered_by_title(tunes),
{
    lemma_ordered_by_title_is_ordered(tunes);
    assert forall|key: Seq<char>| #[trigger]
        ordered.filter(has_key(key)) == ordered_by_title(tunes).filter(has_key(key)) by {
        lemma_ordered_by_title_is_stable(tunes, key);
        assert(ordered.filter(has_key(key)) == tunes.filter(has_key(key)));
    }
    lemma_order_is_determined(ordered, ordered_by_title(tunes));
}

/// The key by which `tune` is ordered.
pub fn title_sort_key(tune: &Tune) -> (key: String)
    ensures
        key@ == title_key(tune@),
{
    match &tune.title {
        Some(title) => to_lowercase(title.as_str()),
        None => to_lowercase(tune.filename.as_str()),
    }
}

/// Whether a tune with the key `first` may stand before one with the key
/// `second`, both keys being in lower case already.
pub fn key_no_later(first: &str, second: &str) -> (le: bool)
    ensures
        le == text_le(first@, second@),
{
    text_no_later(first, second)
}

/// Puts the tunes into the order of the index: by display title in lower
/// case, tunes of the same key in the order in which they stood.
pub fn sort_by_title(tunes: &mut Vec<Tune>)
    ensures
        views(final(tunes)@) == ordered_by_title(views(old(tunes)@)),
{
    let ghost given = views(tunes@);
    let n = tunes.len();
    let mut i: usize = 0;
    assert(views(tunes@).take(0) =~= ordered_by_title(given.take(0)));
    assert(views(tunes@).skip(0) =~= given.skip(0));
    while i < n
        invariant
            i <= n,
            tunes.len() == n,
            given.len() == n,
            views(tunes@).take(i as int) == ordered_by_title(given.take(i as int)),
            views(tunes@).skip(i as int) == given.skip(i as int),
        decreases n - i,
    {
        let ghost before = views(tunes@);
        let ghost front = before.take(i as int);
        let ghost tune = before[i as int];
        let key = title_sort_key(&tunes[i]);
        let mut at: usize = i;
        loop
            invariant
                at <= i < n,
                tunes.len() == n,
                before == views(tunes@),
                front == before.take(i as int),
                tune == before[i as int],
                key@ == title_key(tune),
                forall|k: int| at <= k < i ==> !title_le(#[trigger] front[k], tune),
            ensures
                at == 0 || title_le(front[at - 1], tune),
            decreases at,
        {
            if at == 0 {
                break ;
            }
            let earlier = title_sort_key(&tunes[at - 1]);
            if key_no_later(earlier.as_str(), key.as_str()) {
                assert(front[at - 1] == before[at - 1]);
                break ;
            }
            assert(front[at - 1] == before[at - 1]);
            at -= 1;
        }
        if at < i {
            let moved = tunes.remove(i);
            tunes.insert(at, moved);
        }
        proof {
            let after = views(tunes@);
            let next = given.take(i + 1);
            assert(next.drop_last() =~= given.take(i as int));
            assert(given.skip(i as int)[0] == tune);
            assert(next.last() == tune);
            lemma_place_is_unique(front, tune, at as int);
            assert(after.take(i + 1) =~= front.insert(at as int, tune));
            assert(after.skip(i + 1) =~= given.skip(i + 1)) by {
                assert forall|k: int| 0 <= k < n - i - 1 implies #[trigger] after.skip(i + 1)[k]
                    == given.skip(i + 1)[k] by {
                    assert(after[i + 1 + k] == before[i + 1 + k]);
                    assert(before.skip(i as int)[k + 1] == before[i + 1 + k]);
                }
            }
        }
        i += 1;
    }
    assert(views(tunes@).take(n as int) =~= views(tunes@));
    assert(given.take(n as int) =~= given);
}

} // verus!
