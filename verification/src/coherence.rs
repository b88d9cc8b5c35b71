//! How a window of best levels stands to the side it is taken from: which
//! windows are true to a side, and why every update keeps them so.

use vstd::prelude::*;
use vstd::set_lib::{lemma_len_subset, lemma_subset_equality};
use crate::price_level::{better, PriceLevel};
use crate::book_side_ops::{add_report, after_delete};
use crate::ranking::{
    better_prices, lemma_rank_bounds, lemma_rank_monotone, level_of_rank, rank,
};
use crate::top_n_levels::{
    last_occupied_price, lemma_last_occupied_price, lemma_occupied_end_upto, occupied_end,
    first_holds_price, follows_all, holds_price, inserted, leads, lemma_first_holder,
    lemma_inserted_slots, prefix_occupied, replaced, requantified, strictly_ordered, tracks,
};

verus! {

/// Every level in the window is a level of the side, with the side's quantity.
pub open spec fn mirrors(slots: Seq<Option<PriceLevel>>, qtys: Map<i64, i64>) -> bool {
    forall|i: int|
        0 <= i < slots.len() && slots[i] is Some ==> qtys.contains_key(slots[i].unwrap().price)
            && qtys[slots[i].unwrap().price] == slots[i].unwrap().qty
}

/// Every price of the side is in the window, or lies behind the price in the
/// window's final slot.
pub open spec fn covers_best(slots: Seq<Option<PriceLevel>>, qtys: Map<i64, i64>, is_bid: bool) -> bool {
    forall|price: i64|
        #![trigger qtys.contains_key(price)]
        qtys.contains_key(price) ==> tracks(slots, price) || leads(
            slots,
            is_bid,
            price,
            slots.len() - 1,
        )
}

/// The window holds the best levels of the side: it is not empty of slots, its
/// occupied slots form a prefix in strict price order, each of its levels is a
/// level of the side, and no price of the side that it leaves out is as good
/// as one that it holds.
pub open spec fn true_to(slots: Seq<Option<PriceLevel>>, qtys: Map<i64, i64>, is_bid: bool) -> bool {
    &&& slots.len() > 0
    &&& prefix_occupied(slots)
    &&& strictly_ordered(slots, is_bid)
    &&& mirrors(slots, qtys)
    &&& covers_best(slots, qtys, is_bid)
}

/// The window after `qty` has been added at `price` to a side that held
/// `qtys`: as it was if the price lies behind its final slot; else with the
/// new total at the price if the side held the price; else with the new level
/// entered in order.
pub open spec fn window_after_add(
    slots: Seq<Option<PriceLevel>>,
    qtys: Map<i64, i64>,
    is_bid: bool,
    price: i64,
    qty: int,
) -> Seq<Option<PriceLevel>> {
    let level = add_report(qtys, price, qty).1;
    if leads(slots, is_bid, price, slots.len() - 1) {
        slots
    } else if qtys.contains_key(price) {
        requantified(slots, price, level.qty)
    } else {
        inserted(slots, is_bid, level)
    }
}

/// The window after `qty` was to be taken from `price` on a side that held
/// `qtys`: as it was if that fails or if the price lies behind its final slot;
/// else with what remains at the price, if anything does; else without the
/// price and with the level at its end that as many levels of the remaining
/// side are better than as the window has other slots, if there is one.
pub open spec fn window_after_delete(
    slots: Seq<Option<PriceLevel>>,
    qtys: Map<i64, i64>,
    is_bid: bool,
    price: i64,
    qty: int,
) -> Seq<Option<PriceLevel>> {
    match after_delete(qtys, price, qty) {
        Ok(remaining) => if leads(slots, is_bid, price, slots.len() - 1) {
            slots
        } else if remaining.contains_key(price) {
            requantified(slots, price, remaining[price])
        } else {
            replaced(
                slots,
                price,
                level_of_rank(remaining, is_bid, (slots.len() - 1) as nat),
            )
        },
        Err(_) => slots,
    }
}

/// The prices held in the first `k` slots.
pub open spec fn prices_before(slots: Seq<Option<PriceLevel>>, k: int) -> Set<i64> {
    Set::new(|price: i64| exists|i: int| 0 <= i < k && holds_price(slots, i, price))
}

/// The first `k` slots of an ordered window hold at most `k` prices, and
/// exactly `k` if all of them are occupied.
pub proof fn lemma_prices_before(slots: Seq<Option<PriceLevel>>, is_bid: bool, k: int)
    requires
        0 <= k <= slots.len(),
        strictly_ordered(slots, is_bid),
    ensures
        prices_before(slots, k).finite(),
        prices_before(slots, k).len() <= k,
        (forall|i: int| 0 <= i < k ==> slots[i] is Some) ==> prices_before(slots, k).len() == k,
    decreases k,
{
    if k == 0 {
        assert(prices_before(slots, k) =~= Set::<i64>::empty());
    } else {
        lemma_prices_before(slots, is_bid, k - 1);
        let fewer = prices_before(slots, k - 1);
        match slots[k - 1] {
            Some(level) => {
                assert(holds_price(slots, k - 1, level.price));
                assert(prices_before(slots, k) =~= fewer.insert(level.price));
                if fewer.contains(level.price) {
                    let i = choose|i: int| 0 <= i < k - 1 && holds_price(slots, i, level.price);
                    assert(better(is_bid, slots[i].unwrap().price, slots[k - 1].unwrap().price));
                }
            },
            None => {
                assert(prices_before(slots, k) =~= fewer);
            },
        }
    }
}

/// `after` holds what `before` holds, but for what it holds at `price`.
pub open spec fn differs_only_at(before: Map<i64, i64>, after: Map<i64, i64>, price: i64) -> bool {
    forall|other: i64|
        #![trigger after.contains_key(other)]
        #![trigger before.contains_key(other)]
        other != price ==> (after.contains_key(other) <==> before.contains_key(other)) && (
        before.contains_key(other) ==> after[other] == before[other])
}

/// A price behind the final slot of a window is not in the window.
pub proof fn lemma_behind_is_untracked(slots: Seq<Option<PriceLevel>>, is_bid: bool, price: i64)
    requires
        slots.len() > 0,
        strictly_ordered(slots, is_bid),
        leads(slots, is_bid, price, slots.len() - 1),
    ensures
        !tracks(slots, price),
{
    if tracks(slots, price) {
        let i = choose|i: int| holds_price(slots, i, price);
        if i < slots.len() - 1 {
            assert(better(is_bid, slots[i].unwrap().price, slots[slots.len() - 1].unwrap().price));
        }
    }
}

/// The worst price of a window that is true to a side is strictly better than
/// a price of the side exactly if the window is full and the price lies
/// behind its final slot: while a slot is free, the window holds every price
/// of the side, and none of them is worse than the worst it holds.
pub proof fn lemma_behind_worst_price(
    slots: Seq<Option<PriceLevel>>,
    qtys: Map<i64, i64>,
    is_bid: bool,
    price: i64,
)
    requires
        true_to(slots, qtys, is_bid),
        qtys.contains_key(price),
    ensures
        (last_occupied_price(slots) matches Some(worst) && better(is_bid, worst, price))
            == leads(slots, is_bid, price, slots.len() - 1),
{
    let last = slots.len() - 1;
    lemma_last_occupied_price(slots);
    lemma_occupied_end_upto(slots, slots.len() as int);
    if slots[last] is None {
        let end = occupied_end(slots);
        assert(tracks(slots, price));
        let i = choose|i: int| holds_price(slots, i, price);
        if end > 0 && i < end - 1 {
            assert(slots[end - 1] is Some);
            assert(better(is_bid, slots[i].unwrap().price, slots[end - 1].unwrap().price));
        }
    }
}

/// A window stays true to a side that changes only at a price behind the
/// window's final slot.
pub proof fn lemma_change_behind_window(
    slots: Seq<Option<PriceLevel>>,
    qtys: Map<i64, i64>,
    is_bid: bool,
    price: i64,
    after: Map<i64, i64>,
)
    requires
        true_to(slots, qtys, is_bid),
        leads(slots, is_bid, price, slots.len() - 1),
        differs_only_at(qtys, after, price),
    ensures
        true_to(slots, after, is_bid),
{
    lemma_behind_is_untracked(slots, is_bid, price);
    assert forall|i: int| 0 <= i < slots.len() && slots[i] is Some implies after.contains_key(
        slots[i].unwrap().price,
    ) && after[slots[i].unwrap().price] == slots[i].unwrap().qty by {
        assert(holds_price(slots, i, slots[i].unwrap().price));
    }
    assert forall|other: i64| after.contains_key(other) implies tracks(slots, other) || leads(
        slots,
        is_bid,
        other,
        slots.len() - 1,
    ) by {
        if other != price {
            assert(qtys.contains_key(other));
        }
    }
}

/// In an ordered window only one slot holds a given price.
pub proof fn lemma_single_holder(
    slots: Seq<Option<PriceLevel>>,
    is_bid: bool,
    price: i64,
    i: int,
    j: int,
)
    requires
        strictly_ordered(slots, is_bid),
        holds_price(slots, i, price),
        holds_price(slots, j, price),
    ensures
        i == j,
{
    if i < j {
        assert(better(is_bid, slots[i].unwrap().price, slots[j].unwrap().price));
    } else if j < i {
        assert(better(is_bid, slots[j].unwrap().price, slots[i].unwrap().price));
    }
}

/// A window that takes over the new quantity of a level it holds stays true to
/// the side.
pub proof fn lemma_requantified_true(
    slots: Seq<Option<PriceLevel>>,
    qtys: Map<i64, i64>,
    is_bid: bool,
    price: i64,
    qty: i64,
)
    requires
        true_to(slots, qtys, is_bid),
        qtys.contains_key(price),
        !leads(slots, is_bid, price, slots.len() - 1),
    ensures
        true_to(requantified(slots, price, qty), qtys.insert(price, qty), is_bid),
{
    let after = requantified(slots, price, qty);
    let holder = choose|i: int| holds_price(slots, i, price);
    lemma_first_holder(slots, price, holder);
    let at = choose|i: int| first_holds_price(slots, i, price);
    assert forall|i: int| 0 <= i < slots.len() implies after[i] == if i == at {
        Some(PriceLevel { price, qty })
    } else {
        slots[i]
    } by {
        if first_holds_price(slots, i, price) {
            lemma_single_holder(slots, is_bid, price, i, at);
        }
    }
    assert forall|i: int| 0 <= i < after.len() && after[i] is Some implies qtys.insert(
        price,
        qty,
    ).contains_key(after[i].unwrap().price) && qtys.insert(price, qty)[after[i].unwrap().price]
        == after[i].unwrap().qty by {
        if i != at && slots[i].unwrap().price == price {
            lemma_single_holder(slots, is_bid, price, i, at);
        }
    }
    assert forall|other: i64| qtys.insert(price, qty).contains_key(other) implies tracks(
        after,
        other,
    ) || leads(after, is_bid, other, after.len() - 1) by {
        if tracks(slots, other) {
            let i = choose|i: int| holds_price(slots, i, other);
            assert(holds_price(after, i, other));
        }
    }
}

/// A window that takes in a level new to the side, whose price does not lie
/// behind its final slot, stays true to the side.
pub proof fn lemma_inserted_true(
    slots: Seq<Option<PriceLevel>>,
    qtys: Map<i64, i64>,
    is_bid: bool,
    level: PriceLevel,
)
    requires
        true_to(slots, qtys, is_bid),
        !qtys.contains_key(level.price),
        !leads(slots, is_bid, level.price, slots.len() - 1),
    ensures
        !tracks(slots, level.price),
        true_to(inserted(slots, is_bid, level), qtys.insert(level.price, level.qty), is_bid),
{
    let after = inserted(slots, is_bid, level);
    let side = qtys.insert(level.price, level.qty);
    let at = crate::top_n_levels::insertion_point(slots, is_bid, level.price);
    let last = slots.len() - 1;
    if tracks(slots, level.price) {
        let i = choose|i: int| holds_price(slots, i, level.price);
        assert(qtys.contains_key(slots[i].unwrap().price));
    }
    lemma_inserted_slots(slots, is_bid, level);
    crate::top_n_levels::lemma_inserted_keeps_order(slots, is_bid, level);
    assert forall|i: int| 0 <= i < after.len() && after[i] is Some implies side.contains_key(
        after[i].unwrap().price,
    ) && side[after[i].unwrap().price] == after[i].unwrap().qty by {
        if i < at {
            assert(slots[i] is Some);
        } else if i > at {
            assert(slots[i - 1] is Some);
        }
    }
    assert forall|other: i64| side.contains_key(other) implies tracks(after, other) || leads(
        after,
        is_bid,
        other,
        last,
    ) by {
        if other == level.price {
            assert(holds_price(after, at, other));
        } else if tracks(slots, other) {
            let i = choose|i: int| holds_price(slots, i, other);
            if i < at {
                assert(holds_price(after, i, other));
            } else if i < last {
                assert(holds_price(after, i + 1, other));
            } else {
                if at < last {
                    assert(slots[last - 1] is Some);
                    assert(better(
                        is_bid,
                        slots[last - 1].unwrap().price,
                        slots[last].unwrap().price,
                    ));
                }
            }
        } else {
            assert(leads(slots, is_bid, other, last));
            if at < last {
                assert(slots[last - 1] is Some);
                assert(better(is_bid, slots[last - 1].unwrap().price, slots[last].unwrap().price));
            }
        }
    }
}

/// The prices held in a window that is true to a side are prices of the side,
/// and they are all of them if the window has an empty slot.
pub proof fn lemma_held_prices(slots: Seq<Option<PriceLevel>>, qtys: Map<i64, i64>, is_bid: bool)
    requires
        qtys.dom().finite(),
        true_to(slots, qtys, is_bid),
    ensures
        prices_before(slots, slots.len() as int).finite(),
        prices_before(slots, slots.len() as int).subset_of(qtys.dom()),
        prices_before(slots, slots.len() as int).len() <= qtys.len(),
        forall|price: i64|
            tracks(slots, price) <==> prices_before(slots, slots.len() as int).contains(price),
        slots[slots.len() - 1] is Some ==> prices_before(slots, slots.len() as int).len()
            == slots.len(),
        slots[slots.len() - 1] is None ==> prices_before(slots, slots.len() as int) == qtys.dom()
            && qtys.len() < slots.len(),
{
    let n = slots.len() as int;
    let held = prices_before(slots, n);
    lemma_prices_before(slots, is_bid, n);
    assert forall|price: i64| held.contains(price) implies qtys.dom().contains(price) by {
        let i = choose|i: int| 0 <= i < n && holds_price(slots, i, price);
        assert(slots[i] is Some);
    }
    lemma_len_subset(held, qtys.dom());
    if slots[n - 1] is None {
        assert forall|price: i64| qtys.dom().contains(price) implies held.contains(price) by {
            assert(qtys.contains_key(price));
            assert(tracks(slots, price));
        }
        assert(held =~= qtys.dom());
        assert(held =~= prices_before(slots, n - 1));
        lemma_prices_before(slots, is_bid, n - 1);
    }
}

/// A window that loses a level which has left the side, and gains at its end
/// the level that is now the side's `N`-th best, if there is one, stays true
/// to the side. That level lies behind every level of the window.
pub proof fn lemma_replaced_true(
    slots: Seq<Option<PriceLevel>>,
    qtys: Map<i64, i64>,
    is_bid: bool,
    price: i64,
    promoted: Option<PriceLevel>,
)
    requires
        qtys.dom().finite(),
        true_to(slots, qtys, is_bid),
        qtys.contains_key(price),
        !leads(slots, is_bid, price, slots.len() - 1),
        promoted is Some <==> slots.len() <= qtys.remove(price).len(),
        promoted matches Some(level) ==> {
            &&& qtys.remove(price).contains_key(level.price)
            &&& qtys.remove(price)[level.price] == level.qty
            &&& rank(qtys.remove(price), is_bid, level.price) == slots.len() - 1
        },
    ensures
        tracks(slots, price),
        follows_all(slots, is_bid, promoted),
        true_to(replaced(slots, price, promoted), qtys.remove(price), is_bid),
{
    let n = slots.len() as int;
    let last = n - 1;
    let rest = qtys.remove(price);
    let held = prices_before(slots, n);
    let after = replaced(slots, price, promoted);
    assert(tracks(slots, price));
    lemma_first_holder(slots, price, choose|i: int| holds_price(slots, i, price));
    let at = choose|i: int| first_holds_price(slots, i, price);
    lemma_held_prices(slots, qtys, is_bid);
    assert(after.len() == n);
    assert forall|k: int| 0 <= k < last implies after[k] == slots[if k < at {
        k
    } else {
        k + 1
    }] by {}
    assert(after[last] == promoted);
    // Every price of the window stands at or ahead of the price in its final slot.
    assert forall|k: int, other: i64|
        0 <= k < n && slots[k] is Some && leads(slots, is_bid, other, last) implies leads(
        slots,
        is_bid,
        other,
        k,
    ) by {
        if k < last {
            assert(better(is_bid, slots[k].unwrap().price, slots[last].unwrap().price));
        }
    }
    match promoted {
        Some(level) => {
            lemma_rank_bounds(rest, is_bid, level.price);
            if slots[last] is None {
                assert(false);
            }
            assert forall|k: int| 0 <= k < n implies slots[k] is Some by {}
            if tracks(slots, level.price) {
                let ahead = better_prices(rest, is_bid, level.price);
                let others = held.remove(price).remove(level.price);
                let j = choose|j: int| holds_price(slots, j, level.price);
                assert forall|other: i64| ahead.contains(other) implies others.contains(other) by {
                    assert(qtys.contains_key(other));
                    if !tracks(slots, other) {
                        assert(leads(slots, is_bid, other, last));
                        assert(leads(slots, is_bid, other, j));
                    }
                }
                lemma_len_subset(ahead, others);
                assert(false);
            }
            assert(qtys.contains_key(level.price));
            assert(leads(slots, is_bid, level.price, last));
            assert(follows_all(slots, is_bid, promoted));
            assert forall|other: i64| rest.contains_key(other) implies tracks(after, other)
                || leads(after, is_bid, other, last) by {
                assert(qtys.contains_key(other));
                if tracks(slots, other) {
                    let j = choose|j: int| holds_price(slots, j, other);
                    if j < at {
                        assert(holds_price(after, j, other));
                    } else {
                        assert(holds_price(after, j - 1, other));
                    }
                } else if other == level.price {
                    assert(holds_price(after, last, other));
                } else if better(is_bid, other, level.price) {
                    lemma_rank_monotone(rest, is_bid, other, level.price);
                    lemma_rank_bounds(rest, is_bid, other);
                    let ahead = better_prices(rest, is_bid, other);
                    let others = held.remove(price);
                    assert forall|p: i64| others.contains(p) implies ahead.contains(p) by {
                        let k = choose|k: int| 0 <= k < n && holds_price(slots, k, p);
                        assert(leads(slots, is_bid, other, last));
                        assert(leads(slots, is_bid, other, k));
                    }
                    lemma_len_subset(others, ahead);
                    assert(false);
                }
            }
        },
        None => {
            assert forall|other: i64| rest.contains_key(other) implies tracks(after, other) by {
                assert(qtys.contains_key(other));
                if slots[last] is Some {
                    lemma_subset_equality(held, qtys.dom());
                    assert(held.contains(other));
                }
                assert(tracks(slots, other));
                let j = choose|j: int| holds_price(slots, j, other);
                if j < at {
                    assert(holds_price(after, j, other));
                } else {
                    assert(holds_price(after, j - 1, other));
                }
            }
        },
    }
    crate::top_n_levels::lemma_replaced_keeps_order(slots, is_bid, price, promoted);
    assert forall|k: int| 0 <= k < after.len() && after[k] is Some implies rest.contains_key(
        after[k].unwrap().price,
    ) && rest[after[k].unwrap().price] == after[k].unwrap().qty by {
        if k < last {
            let from = if k < at {
                k
            } else {
                k + 1
            };
            if slots[from].unwrap().price == price {
                lemma_single_holder(slots, is_bid, price, from, at);
            }
        }
    }
}

/// In a window that is true to a side, the level in slot `i` is the side's
/// level of rank `i`: exactly `i` prices of the side are better than its price.
pub proof fn lemma_slot_ranks(
    slots: Seq<Option<PriceLevel>>,
    qtys: Map<i64, i64>,
    is_bid: bool,
    i: int,
)
    requires
        qtys.dom().finite(),
        true_to(slots, qtys, is_bid),
        0 <= i < slots.len(),
        slots[i] is Some,
    ensures
        qtys.contains_key(slots[i].unwrap().price),
        rank(qtys, is_bid, slots[i].unwrap().price) == i,
{
    let price = slots[i].unwrap().price;
    let last = slots.len() - 1;
    let ahead = better_prices(qtys, is_bid, price);
    let before = prices_before(slots, i);
    lemma_prices_before(slots, is_bid, i);
    assert forall|other: i64| ahead.contains(other) implies before.contains(other) by {
        assert(qtys.contains_key(other));
        if tracks(slots, other) {
            let k = choose|k: int| holds_price(slots, k, other);
            if k > i {
                assert(better(is_bid, slots[i].unwrap().price, slots[k].unwrap().price));
            }
        } else {
            assert(leads(slots, is_bid, other, last));
            if i < last {
                assert(better(is_bid, slots[i].unwrap().price, slots[last].unwrap().price));
            }
        }
    }
    assert forall|other: i64| before.contains(other) implies ahead.contains(other) by {
        let k = choose|k: int| 0 <= k < i && holds_price(slots, k, other);
        assert(better(is_bid, slots[k].unwrap().price, slots[i].unwrap().price));
    }
    assert(ahead =~= before);
}

/// A window that is true to a side holds exactly the prices of the side with
/// rank below the number of its slots, and as many levels as the side has, up
/// to that number.
pub proof fn lemma_top_n_fidelity(
    slots: Seq<Option<PriceLevel>>,
    qtys: Map<i64, i64>,
    is_bid: bool,
)
    requires
        qtys.dom().finite(),
        true_to(slots, qtys, is_bid),
    ensures
        forall|price: i64|
            tracks(slots, price) <==> qtys.contains_key(price) && rank(qtys, is_bid, price)
                < slots.len(),
        forall|i: int| 0 <= i < slots.len() ==> (slots[i] is Some <==> i < qtys.len()),
{
    let n = slots.len() as int;
    let last = n - 1;
    lemma_held_prices(slots, qtys, is_bid);
    assert forall|price: i64| tracks(slots, price) implies qtys.contains_key(price) && rank(
        qtys,
        is_bid,
        price,
    ) < slots.len() by {
        let i = choose|i: int| holds_price(slots, i, price);
        lemma_slot_ranks(slots, qtys, is_bid, i);
    }
    assert forall|price: i64|
        qtys.contains_key(price) && rank(qtys, is_bid, price) < slots.len() implies tracks(
        slots,
        price,
    ) by {
        if !tracks(slots, price) {
            assert(leads(slots, is_bid, price, last));
            let ahead = better_prices(qtys, is_bid, price);
            let held = prices_before(slots, n);
            lemma_rank_bounds(qtys, is_bid, price);
            assert forall|other: i64| held.contains(other) implies ahead.contains(other) by {
                let k = choose|k: int| 0 <= k < n && holds_price(slots, k, other);
                if k < last {
                    assert(better(is_bid, slots[k].unwrap().price, slots[last].unwrap().price));
                }
            }
            lemma_len_subset(held, ahead);
        }
    }
    assert forall|i: int| 0 <= i < slots.len() implies (slots[i] is Some <==> i < qtys.len()) by {
        if slots[i] is Some {
            lemma_slot_ranks(slots, qtys, is_bid, i);
            lemma_rank_bounds(qtys, is_bid, slots[i].unwrap().price);
        } else {
            if i < last {
                assert(slots[last] is None);
            }
            assert(prices_before(slots, n) =~= prices_before(slots, i));
            lemma_prices_before(slots, is_bid, i);
        }
    }
}

/// Two windows of the same size that are true to the same side are the same
/// window.
pub proof fn lemma_window_determined(
    a: Seq<Option<PriceLevel>>,
    b: Seq<Option<PriceLevel>>,
    qtys: Map<i64, i64>,
    is_bid: bool,
)
    requires
        qtys.dom().finite(),
        true_to(a, qtys, is_bid),
        true_to(b, qtys, is_bid),
        a.len() == b.len(),
    ensures
        a == b,
{
    lemma_top_n_fidelity(a, qtys, is_bid);
    lemma_top_n_fidelity(b, qtys, is_bid);
    assert forall|i: int| 0 <= i < a.len() implies a[i] == b[i] by {
        if a[i] is Some {
            lemma_slot_ranks(a, qtys, is_bid, i);
            lemma_slot_ranks(b, qtys, is_bid, i);
            crate::ranking::lemma_rank_injective(
                qtys,
                is_bid,
                a[i].unwrap().price,
                b[i].unwrap().price,
            );
        }
    }
    assert(a =~= b);
}

/// A window that is true to an empty side is empty.
pub proof fn lemma_empty_side_empty_window(slots: Seq<Option<PriceLevel>>, is_bid: bool)
    requires
        true_to(slots, Map::<i64, i64>::empty(), is_bid),
    ensures
        forall|i: int| 0 <= i < slots.len() ==> slots[i] is None,
{
}

} // verus!
