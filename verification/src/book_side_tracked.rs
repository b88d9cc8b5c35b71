//! One side of the book together with a window of its best `N` levels that is
//! brought up to date with every change to the side.

use vstd::prelude::*;
use crate::book_side::BookSide;
use crate::book_side_ops::{
    DeleteLevelType, FoundLevelType, PricePointMutationOps, PricePointMutationOpsError,
    PricePointSummaryOps,
};
use crate::coherence::{
    lemma_behind_worst_price, lemma_change_behind_window, lemma_empty_side_empty_window,
    lemma_inserted_true,
    lemma_replaced_true, lemma_requantified_true, lemma_slot_ranks, lemma_top_n_fidelity,
    lemma_window_determined, true_to, window_after_add, window_after_delete,
};
use crate::price_level::{better, PriceLevel};
use crate::ranking::{level_of_rank, rank};
use crate::round_trip::{
    adds_fit, after_adds, after_deletes, after_reversing_deletes, lemma_round_trip,
    lemma_round_trip_in_any_order, totals_fit,
};
use crate::top_n_levels::{lemma_last_occupied_price, leads, tracks, NLevels};

verus! {

broadcast use vstd::std_specs::hash::group_hash_axioms;

/// A side of the book that keeps its best `N` levels at hand.
///
/// Additions and deletions go to the side first. The window then follows:
/// a change behind its final slot leaves it alone, a change of quantity at a
/// level it holds is copied, a new level that belongs among the best is entered
/// in order, and a level that has left the side is replaced by the best level
/// that the window did not hold.
#[derive(Debug)]
pub struct BookSideWithTopNTracking<const N: usize> {
    pub book_side: BookSide,
    pub top_n_levels: NLevels<N>,
}

impl<const N: usize> BookSideWithTopNTracking<N> {
    /// The slots of the window, best first.
    pub open spec fn slots(&self) -> Seq<Option<PriceLevel>> {
        self.top_n_levels.levels@
    }

    /// An empty side with an empty window.
    pub fn new(is_bid: bool) -> (side: Self)
        requires
            N > 0,
        ensures
            side.wf(),
            side.bid_side() == is_bid,
            side.qtys() == Map::<i64, i64>::empty(),
    {
        BookSideWithTopNTracking { book_side: BookSide::new(is_bid), top_n_levels: NLevels::new() }
    }

    /// The side's `N`-th best level: the best level outside the window when
    /// the window is full.
    pub fn get_nth_best_level(&self) -> (nth: Option<PriceLevel>)
        requires
            self.book_side.wf(),
        ensures
            nth is Some <==> 1 <= N <= self.qtys().len(),
            nth matches Some(level) ==> {
                &&& self.qtys().contains_key(level.price)
                &&& level.qty == self.qtys()[level.price]
                &&& rank(self.qtys(), self.bid_side(), level.price) == N - 1
            },
            N >= 1 ==> nth == level_of_rank(self.qtys(), self.bid_side(), (N - 1) as nat),
    {
        self.book_side.get_nth_best_level(N)
    }

    /// The level at `price`, if the side holds quantity there.
    pub fn get_level(&self, price: i64) -> (level: Option<&PriceLevel>)
        requires
            self.book_side.wf(),
        ensures
            match level {
                Some(found) => self.qtys().contains_key(price) && *found == (PriceLevel {
                    price,
                    qty: self.qtys()[price],
                }),
                None => !self.qtys().contains_key(price),
            },
    {
        self.book_side.get_level(price)
    }

    /// The window: the best `N` levels, best first, with the empty slots at
    /// the end.
    pub fn top_n(&self) -> (window: &[Option<PriceLevel>; N])
        ensures
            window@ == self.slots(),
    {
        &self.top_n_levels.levels
    }

    /// The best price of the side.
    pub fn best_price(&self) -> (price: Option<i64>)
        requires
            N > 0,
        ensures
            price == crate::top_n_levels::slot_price(self.slots()[0]),
    {
        self.top_n_levels.best_price()
    }

    /// The quantity at the best price of the side.
    pub fn best_price_qty(&self) -> (qty: Option<i64>)
        requires
            N > 0,
        ensures
            match qty {
                Some(q) => self.slots()[0] is Some && self.slots()[0].unwrap().qty == q,
                None => self.slots()[0] is None,
            },
    {
        self.top_n_levels.best_price_qty()
    }
}

impl<const N: usize> PricePointMutationOps for BookSideWithTopNTracking<N> {
    /// The side is valid, the window is a valid window of its kind of side, and
    /// the window is true to the side.
    open spec fn wf(&self) -> bool {
        &&& self.book_side.wf()
        &&& self.top_n_levels.wf(self.book_side.is_bid)
        &&& true_to(self.top_n_levels.levels@, self.book_side.qtys(), self.book_side.is_bid)
    }

    open spec fn bid_side(&self) -> bool {
        self.book_side.is_bid
    }

    open spec fn qtys(&self) -> Map<i64, i64> {
        self.book_side.qtys()
    }

    proof fn lemma_wf_qtys(&self) {
        self.book_side.lemma_wf_qtys();
    }

    fn add_qty(&mut self, price: i64, qty: i64) -> (added: (FoundLevelType, PriceLevel))
        ensures
            final(self).slots() == window_after_add(
                old(self).slots(),
                old(self).qtys(),
                old(self).bid_side(),
                price,
                qty as int,
            ),
    {
        let ghost before = self.book_side.qtys();
        let ghost slots = self.top_n_levels.levels@;
        let is_bid = self.book_side.is_bid;
        let (found_level_type, level) = self.book_side.add_qty(price, qty);
        let behind_window = self.top_n_levels.is_full() && match self.top_n_levels.worst_price {
            Some(worst_price) => if is_bid {
                level.price < worst_price
            } else {
                level.price > worst_price
            },
            None => false,
        };
        proof {
            lemma_last_occupied_price(slots);
        }
        assert(behind_window == leads(slots, is_bid, price, N - 1));
        if behind_window {
            proof {
                lemma_change_behind_window(slots, before, is_bid, price, self.book_side.qtys());
            }
        } else {
            match found_level_type {
                FoundLevelType::Existing => {
                    proof {
                        lemma_requantified_true(slots, before, is_bid, price, level.qty);
                    }
                    self.top_n_levels.update_qty(level.price, level.qty);
                },
                FoundLevelType::New => {
                    proof {
                        lemma_inserted_true(slots, before, is_bid, level);
                    }
                    if is_bid {
                        self.top_n_levels.try_insert_sort(level);
                    } else {
                        self.top_n_levels.insert_sort_reversed(level);
                    }
                },
            }
        }
        (found_level_type, level)
    }

    fn delete_qty(&mut self, price: i64, qty: i64) -> (deleted: Result<
        (DeleteLevelType, PriceLevel),
        PricePointMutationOpsError,
    >)
        ensures
            deleted is Err ==> final(self).top_n_levels == old(self).top_n_levels,
            final(self).slots() == window_after_delete(
                old(self).slots(),
                old(self).qtys(),
                old(self).bid_side(),
                price,
                qty as int,
            ),
    {
        let ghost before = self.book_side.qtys();
        let ghost slots = self.top_n_levels.levels@;
        assert(before.dom() =~= self.book_side.levels@.dom());
        let is_bid = self.book_side.is_bid;
        let (delete_type, level) = match self.book_side.delete_qty(price, qty) {
            Ok(done) => done,
            Err(error) => {
                return Err(error);
            },
        };
        let behind_window = match self.top_n_levels.worst_price {
            Some(worst_price) => if is_bid {
                worst_price > level.price
            } else {
                worst_price < level.price
            },
            None => false,
        };
        proof {
            lemma_behind_worst_price(slots, before, is_bid, price);
        }
        assert(behind_window == leads(slots, is_bid, price, N - 1));
        if behind_window {
            proof {
                lemma_change_behind_window(slots, before, is_bid, price, self.book_side.qtys());
            }
        } else {
            match delete_type {
                DeleteLevelType::QuantityDecreased => {
                    proof {
                        lemma_requantified_true(slots, before, is_bid, price, level.qty);
                    }
                    self.top_n_levels.update_qty(level.price, level.qty);
                },
                DeleteLevelType::Deleted => {
                    let best_untracked_level = self.get_nth_best_level();
                    proof {
                        lemma_replaced_true(slots, before, is_bid, price, best_untracked_level);
                    }
                    self.top_n_levels.replace_sort(level.price, best_untracked_level);
                },
            }
        }
        Ok((delete_type, level))
    }

    fn modify_qty(&mut self, price: i64, qty: i64, prev_price: i64, prev_qty: i64) -> (modified:
        Result<(FoundLevelType, PriceLevel), PricePointMutationOpsError>)
        ensures
            modified is Err ==> final(self).top_n_levels == old(self).top_n_levels,
            price == prev_price && qty == prev_qty ==> final(self).top_n_levels
                == old(self).top_n_levels,
    {
        proof {
            self.lemma_wf_qtys();
            crate::book_side_ops::lemma_modify_to_self(self.qtys(), prev_price, prev_qty as int);
        }
        let modified = match self.delete_qty(prev_price, prev_qty) {
            Ok(_) => Ok(self.add_qty(price, qty)),
            Err(error) => Err(error),
        };
        proof {
            if price == prev_price && qty == prev_qty {
                lemma_window_follows_side(*old(self), *self);
            }
        }
        modified
    }
}

/// The window of a valid side is a function of the side: two valid sides of
/// the same kind that hold the same quantities have the same window.
pub proof fn lemma_window_follows_side<const N: usize>(
    a: BookSideWithTopNTracking<N>,
    b: BookSideWithTopNTracking<N>,
)
    requires
        a.wf(),
        b.wf(),
        a.bid_side() == b.bid_side(),
        a.qtys() == b.qtys(),
    ensures
        a.top_n_levels == b.top_n_levels,
{
    a.lemma_wf_qtys();
    lemma_window_determined(a.slots(), b.slots(), a.qtys(), a.bid_side());
    assert(a.top_n_levels.levels =~= b.top_n_levels.levels);
}

/// The window of a valid side holds the side's best `N` levels, or all of them
/// if they are fewer: slot `i` is occupied exactly if the side has more than
/// `i` levels, and then holds the level that exactly `i` levels of the side are
/// better than, with the side's quantity. So a price is in the window exactly
/// if fewer than `N` prices of the side are better.
pub proof fn lemma_window_is_top_n<const N: usize>(side: BookSideWithTopNTracking<N>)
    requires
        side.wf(),
    ensures
        forall|i: int| 0 <= i < N ==> (side.slots()[i] is Some <==> i < side.qtys().len()),
        forall|i: int|
            0 <= i < N && side.slots()[i] is Some ==> {
                &&& side.qtys().contains_key(side.slots()[i].unwrap().price)
                &&& side.qtys()[side.slots()[i].unwrap().price] == side.slots()[i].unwrap().qty
                &&& rank(side.qtys(), side.bid_side(), side.slots()[i].unwrap().price) == i
            },
        forall|price: i64|
            tracks(side.slots(), price) <==> side.qtys().contains_key(price) && rank(
                side.qtys(),
                side.bid_side(),
                price,
            ) < N,
{
    side.lemma_wf_qtys();
    lemma_top_n_fidelity(side.slots(), side.qtys(), side.bid_side());
    assert forall|i: int| 0 <= i < N && side.slots()[i] is Some implies rank(
        side.qtys(),
        side.bid_side(),
        side.slots()[i].unwrap().price,
    ) == i by {
        lemma_slot_ranks(side.slots(), side.qtys(), side.bid_side(), i);
    }
}

/// A valid side that holds nothing has an empty window and no worst price.
pub proof fn lemma_empty_side<const N: usize>(side: BookSideWithTopNTracking<N>)
    requires
        side.wf(),
        side.qtys() == Map::<i64, i64>::empty(),
    ensures
        forall|i: int| 0 <= i < N ==> side.slots()[i] is None,
        side.top_n_levels.worst_price is None,
{
    lemma_empty_side_empty_window(side.slots(), side.bid_side());
    lemma_last_occupied_price(side.slots());
}

/// Any run of additions to an empty side followed by the deletions that
/// reverse it, the last addition first, leaves the side empty, its window
/// empty and no worst price.
pub proof fn lemma_round_trip_empties_window<const N: usize>(
    side: BookSideWithTopNTracking<N>,
    adds: Seq<(i64, i64)>,
)
    requires
        side.wf(),
        adds_fit(Map::<i64, i64>::empty(), adds),
        after_reversing_deletes(after_adds(Map::<i64, i64>::empty(), adds), adds) == Ok::<
            Map<i64, i64>,
            PricePointMutationOpsError,
        >(side.qtys()),
    ensures
        side.qtys() == Map::<i64, i64>::empty(),
        forall|i: int| 0 <= i < N ==> side.slots()[i] is None,
        side.top_n_levels.worst_price is None,
{
    lemma_round_trip(Map::<i64, i64>::empty(), adds);
    lemma_empty_side(side);
}

/// Any run of additions to an empty side followed by deletions that take
/// back each addition exactly, in whatever order, leaves the side empty, its
/// window empty and no worst price.
pub proof fn lemma_round_trip_in_any_order_empties_window<const N: usize>(
    side: BookSideWithTopNTracking<N>,
    adds: Seq<(i64, i64)>,
    deletes: Seq<(i64, i64)>,
)
    requires
        side.wf(),
        totals_fit(adds),
        deletes.to_multiset() == adds.to_multiset(),
        after_deletes(after_adds(Map::<i64, i64>::empty(), adds), deletes) == Ok::<
            Map<i64, i64>,
            PricePointMutationOpsError,
        >(side.qtys()),
    ensures
        side.qtys() == Map::<i64, i64>::empty(),
        forall|i: int| 0 <= i < N ==> side.slots()[i] is None,
        side.top_n_levels.worst_price is None,
{
    lemma_round_trip_in_any_order(adds, deletes);
    lemma_empty_side(side);
}

/// What holds of every valid side, and so after every event that is applied
/// to one: the occupied slots of its window form a prefix; prices get strictly
/// worse from slot to slot; every level of the window is a level of the side
/// with the side's quantity; and every quantity of the side is strictly
/// positive.
pub proof fn lemma_valid_side<const N: usize>(side: BookSideWithTopNTracking<N>)
    requires
        side.wf(),
    ensures
        forall|i: int, j: int|
            0 <= i < j < N && side.slots()[i] is None ==> side.slots()[j] is None,
        forall|i: int|
            #![trigger side.slots()[i]]
            0 <= i && i + 1 < N && side.slots()[i] is Some && side.slots()[i + 1] is Some
                ==> better(
                side.bid_side(),
                side.slots()[i].unwrap().price,
                side.slots()[i + 1].unwrap().price,
            ),
        forall|i: int|
            0 <= i < N && side.slots()[i] is Some ==> side.qtys().contains_key(
                side.slots()[i].unwrap().price,
            ) && side.qtys()[side.slots()[i].unwrap().price] == side.slots()[i].unwrap().qty,
        forall|price: i64| side.qtys().contains_key(price) ==> side.qtys()[price] > 0,
{
    side.lemma_wf_qtys();
    let slots = side.slots();
    assert forall|i: int, j: int| 0 <= i < j < N && slots[i] is None implies slots[j] is None by {
        if slots[j] is Some {
            assert(slots[i] is Some);
        }
    }
    assert forall|i: int|
        #![trigger slots[i]]
        0 <= i && i + 1 < N && slots[i] is Some && slots[i + 1] is Some implies better(
        side.bid_side(),
        slots[i].unwrap().price,
        slots[i + 1].unwrap().price,
    ) by {
        let j = i + 1;
        assert(slots[j] is Some);
    }
}

/// The worst price of a valid side's window is the price in its last occupied
/// slot, the one that no occupied slot follows, and there is none exactly if
/// no slot is occupied.
pub proof fn lemma_worst_price<const N: usize>(side: BookSideWithTopNTracking<N>)
    requires
        side.wf(),
    ensures
        forall|i: int|
            0 <= i < N && side.slots()[i] is Some && (i + 1 < N ==> side.slots()[i + 1] is None)
                ==> side.top_n_levels.worst_price == Some(side.slots()[i].unwrap().price),
        side.top_n_levels.worst_price is None <==> side.slots()[0] is None,
        side.top_n_levels.worst_price is None <==> (forall|i: int|
            0 <= i < N ==> side.slots()[i] is None),
{
    lemma_last_occupied_price(side.slots());
}

impl<const N: usize> PricePointSummaryOps for BookSideWithTopNTracking<N> {
    fn qty_at_price(&self, price: i64) -> (held: i64) {
        match self.get_level(price) {
            Some(level) => level.qty,
            None => 0,
        }
    }
}

} // verus!
