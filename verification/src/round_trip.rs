//! Runs of additions and of the deletions that take them back.

use vstd::prelude::*;
use vstd::seq_lib::{to_multiset_contains, to_multiset_len, to_multiset_remove};
use crate::book_side_ops::{
    after_add, after_delete, all_positive, lemma_add_keeps_positive, lemma_delete_undoes_add,
    qty_at, PricePointMutationOpsError,
};

verus! {

/// The quantities after each `(price, qty)` of `adds` has been added in turn.
pub open spec fn after_adds(qtys: Map<i64, i64>, adds: Seq<(i64, i64)>) -> Map<i64, i64>
    decreases adds.len(),
{
    if adds.len() == 0 {
        qtys
    } else {
        after_add(after_adds(qtys, adds.drop_last()), adds.last().0, adds.last().1 as int)
    }
}

/// Every quantity of `adds` is strictly positive and no total outgrows `i64`
/// as they are added in turn.
pub open spec fn adds_fit(qtys: Map<i64, i64>, adds: Seq<(i64, i64)>) -> bool
    decreases adds.len(),
{
    adds.len() > 0 ==> {
        &&& adds_fit(qtys, adds.drop_last())
        &&& adds.last().1 > 0
        &&& qty_at(after_adds(qtys, adds.drop_last()), adds.last().0) + adds.last().1 <= i64::MAX
    }
}

/// The outcome of taking each `(price, qty)` of `adds` out again, the last
/// first.
pub open spec fn after_reversing_deletes(qtys: Map<i64, i64>, adds: Seq<(i64, i64)>) -> Result<
    Map<i64, i64>,
    PricePointMutationOpsError,
>
    decreases adds.len(),
{
    if adds.len() == 0 {
        Ok(qtys)
    } else {
        match after_delete(qtys, adds.last().0, adds.last().1 as int) {
            Ok(remaining) => after_reversing_deletes(remaining, adds.drop_last()),
            Err(error) => Err(error),
        }
    }
}

/// Any run of additions followed by the deletions that reverse it, the last
/// addition first, brings the side back to what it was: each deletion
/// succeeds, and a side that was empty is empty again.
pub proof fn lemma_round_trip(qtys: Map<i64, i64>, adds: Seq<(i64, i64)>)
    requires
        all_positive(qtys),
        adds_fit(qtys, adds),
    ensures
        all_positive(after_adds(qtys, adds)),
        after_reversing_deletes(after_adds(qtys, adds), adds) == Ok::<
            Map<i64, i64>,
            PricePointMutationOpsError,
        >(qtys),
    decreases adds.len(),
{
    if adds.len() > 0 {
        let earlier = after_adds(qtys, adds.drop_last());
        lemma_round_trip(qtys, adds.drop_last());
        lemma_add_keeps_positive(earlier, adds.last().0, adds.last().1 as int);
        lemma_delete_undoes_add(earlier, adds.last().0, adds.last().1 as int);
    }
}

/// The quantity that `events` bring to `price` in all.
pub open spec fn total(events: Seq<(i64, i64)>, price: i64) -> int
    decreases events.len(),
{
    if events.len() == 0 {
        0
    } else {
        total(events.drop_last(), price) + if events.last().0 == price {
            events.last().1 as int
        } else {
            0
        }
    }
}

/// Every quantity of `events` is strictly positive, and what they bring to
/// any one price fits `i64`.
pub open spec fn totals_fit(events: Seq<(i64, i64)>) -> bool {
    &&& forall|i: int| 0 <= i < events.len() ==> (#[trigger] events[i]).1 > 0
    &&& forall|price: i64| #[trigger] total(events, price) <= i64::MAX
}

/// What a side holds that has taken in `events`: their total at each price
/// that any of them names.
pub open spec fn totals(events: Seq<(i64, i64)>) -> Map<i64, i64> {
    Map::new(|price: i64| total(events, price) > 0, |price: i64| total(events, price) as i64)
}

/// The outcome of taking each `(price, qty)` of `deletes` in turn, the first
/// first: the failure of the first deletion that fails, if one does.
pub open spec fn after_deletes(qtys: Map<i64, i64>, deletes: Seq<(i64, i64)>) -> Result<
    Map<i64, i64>,
    PricePointMutationOpsError,
>
    decreases deletes.len(),
{
    if deletes.len() == 0 {
        Ok(qtys)
    } else {
        match after_delete(qtys, deletes.first().0, deletes.first().1 as int) {
            Ok(remaining) => after_deletes(remaining, deletes.drop_first()),
            Err(error) => Err(error),
        }
    }
}

/// Strictly positive quantities bring a total that is not negative, and is
/// strictly positive at the price of each of them.
proof fn lemma_total_bounds(events: Seq<(i64, i64)>, price: i64)
    requires
        forall|i: int| 0 <= i < events.len() ==> (#[trigger] events[i]).1 > 0,
    ensures
        total(events, price) >= 0,
        events.len() > 0 ==> total(events.drop_last(), price) <= total(events, price),
        forall|i: int|
            0 <= i < events.len() && (#[trigger] events[i]).0 == price ==> total(events, price)
                >= events[i].1,
    decreases events.len(),
{
    if events.len() > 0 {
        let earlier = events.drop_last();
        assert forall|i: int| 0 <= i < earlier.len() implies (#[trigger] earlier[i]).1 > 0 by {
            assert(earlier[i] == events[i]);
        }
        lemma_total_bounds(earlier, price);
        assert(events.last() == events[events.len() - 1]);
        assert forall|i: int|
            0 <= i < events.len() && (#[trigger] events[i]).0 == price implies total(
            events,
            price,
        ) >= events[i].1 by {
            if i < events.len() - 1 {
                assert(earlier[i] == events[i]);
            }
        }
    }
}

/// Without one of its events, a run brings that event's quantity less to the
/// event's price, and the same to every other price.
proof fn lemma_total_without(events: Seq<(i64, i64)>, i: int, price: i64)
    requires
        0 <= i < events.len(),
    ensures
        total(events.remove(i), price) == total(events, price) - if events[i].0 == price {
            events[i].1 as int
        } else {
            0
        },
    decreases events.len(),
{
    if i == events.len() - 1 {
        assert(events.remove(i) =~= events.drop_last());
    } else {
        lemma_total_without(events.drop_last(), i, price);
        assert(events.remove(i).drop_last() =~= events.drop_last().remove(i));
        assert(events.remove(i).last() == events.last());
    }
}

/// A run of events that fit, without one of them, still fits.
proof fn lemma_totals_fit_without(events: Seq<(i64, i64)>, i: int)
    requires
        0 <= i < events.len(),
        totals_fit(events),
    ensures
        totals_fit(events.remove(i)),
{
    let rest = events.remove(i);
    assert forall|k: int| 0 <= k < rest.len() implies (#[trigger] rest[k]).1 > 0 by {
        if k < i {
            assert(rest[k] == events[k]);
        } else {
            assert(rest[k] == events[k + 1]);
        }
    }
    assert forall|price: i64| #[trigger] total(rest, price) <= i64::MAX by {
        lemma_total_without(events, i, price);
        assert(total(events, price) <= i64::MAX);
        assert(events[i].1 > 0);
    }
}

/// A side that was empty holds, after a run of additions, the total of the
/// run at each price.
pub proof fn lemma_adds_make_totals(adds: Seq<(i64, i64)>)
    requires
        totals_fit(adds),
    ensures
        adds_fit(Map::<i64, i64>::empty(), adds),
        after_adds(Map::<i64, i64>::empty(), adds) == totals(adds),
    decreases adds.len(),
{
    let empty = Map::<i64, i64>::empty();
    if adds.len() == 0 {
        assert(totals(adds) =~= empty);
    } else {
        let earlier = adds.drop_last();
        let (price, qty) = adds.last();
        assert(adds.last() == adds[adds.len() - 1]);
        assert forall|i: int| 0 <= i < earlier.len() implies (#[trigger] earlier[i]).1 > 0 by {
            assert(earlier[i] == adds[i]);
        }
        assert forall|other: i64| #[trigger] total(earlier, other) <= i64::MAX by {
            lemma_total_bounds(adds, other);
            assert(total(adds, other) <= i64::MAX);
        }
        lemma_adds_make_totals(earlier);
        lemma_total_bounds(earlier, price);
        assert(total(adds, price) <= i64::MAX);
        assert(qty_at(totals(earlier), price) == total(earlier, price));
        assert(after_add(totals(earlier), price, qty as int) =~= totals(adds)) by {
            assert forall|other: i64|
                total(adds, other) > 0 <==> (other == price || total(earlier, other) > 0) by {
                lemma_total_bounds(earlier, other);
            }
        }
    }
}

/// Deletions that take back, in any order, each addition of a run that fits
/// leave nothing of what the run brought: each of them succeeds, and the side
/// that held the totals of the run is empty.
pub proof fn lemma_deletes_empty_totals(adds: Seq<(i64, i64)>, deletes: Seq<(i64, i64)>)
    requires
        totals_fit(adds),
        deletes.to_multiset() == adds.to_multiset(),
    ensures
        after_deletes(totals(adds), deletes) == Ok::<Map<i64, i64>, PricePointMutationOpsError>(
            Map::<i64, i64>::empty(),
        ),
    decreases deletes.len(),
{
    to_multiset_len(adds);
    to_multiset_len(deletes);
    if deletes.len() == 0 {
        assert(totals(adds) =~= Map::<i64, i64>::empty());
    } else {
        let (price, qty) = deletes.first();
        to_multiset_contains(deletes, deletes.first());
        to_multiset_contains(adds, deletes.first());
        assert(deletes.contains(deletes.first())) by {
            assert(deletes[0] == deletes.first());
        }
        let i = choose|i: int| 0 <= i < adds.len() && adds[i] == deletes.first();
        let rest = adds.remove(i);
        lemma_total_bounds(adds, price);
        lemma_totals_fit_without(adds, i);
        assert(after_delete(totals(adds), price, qty as int) == Ok::<
            Map<i64, i64>,
            PricePointMutationOpsError,
        >(totals(rest))) by {
            assert(totals(adds).contains_key(price));
            assert forall|other: i64|
                total(rest, other) == total(adds, other) - if other == price {
                    qty as int
                } else {
                    0
                } by {
                lemma_total_without(adds, i, other);
            }
            match after_delete(totals(adds), price, qty as int) {
                Ok(remaining) => {
                    assert(remaining =~= totals(rest));
                },
                Err(_) => {},
            }
        }
        to_multiset_remove(adds, i);
        to_multiset_remove(deletes, 0);
        assert(deletes.remove(0) =~= deletes.drop_first());
        lemma_deletes_empty_totals(rest, deletes.drop_first());
    }
}

/// Any run of additions to an empty side followed by deletions that take
/// back each addition exactly, in whatever order, leaves the side empty, and
/// each of the deletions succeeds.
pub proof fn lemma_round_trip_in_any_order(adds: Seq<(i64, i64)>, deletes: Seq<(i64, i64)>)
    requires
        totals_fit(adds),
        deletes.to_multiset() == adds.to_multiset(),
    ensures
        adds_fit(Map::<i64, i64>::empty(), adds),
        after_deletes(after_adds(Map::<i64, i64>::empty(), adds), deletes) == Ok::<
            Map<i64, i64>,
            PricePointMutationOpsError,
        >(Map::<i64, i64>::empty()),
{
    lemma_adds_make_totals(adds);
    lemma_deletes_empty_totals(adds, deletes);
}

} // verus!
