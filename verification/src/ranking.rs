//! The ranking of the prices of one side: which prices lie ahead of a given
//! price, and how many.

use vstd::prelude::*;
use vstd::set_lib::{lemma_len_subset};
use crate::price_level::{better, PriceLevel};

verus! {

/// The prices in `qtys` that rank strictly ahead of `price`.
pub open spec fn better_prices(qtys: Map<i64, i64>, is_bid: bool, price: i64) -> Set<i64> {
    qtys.dom().filter(|other: i64| better(is_bid, other, price))
}

/// The number of prices in `qtys` that rank strictly ahead of `price`: zero for
/// the best price, one for the second best, and so on.
pub open spec fn rank(qtys: Map<i64, i64>, is_bid: bool, price: i64) -> nat {
    better_prices(qtys, is_bid, price).len()
}

/// The prices ahead of a price are finitely many, and fewer than all prices
/// when the price is itself among them.
pub proof fn lemma_rank_bounds(qtys: Map<i64, i64>, is_bid: bool, price: i64)
    requires
        qtys.dom().finite(),
    ensures
        better_prices(qtys, is_bid, price).finite(),
        rank(qtys, is_bid, price) <= qtys.len(),
        qtys.contains_key(price) ==> rank(qtys, is_bid, price) < qtys.len(),
{
    let ahead = better_prices(qtys, is_bid, price);
    assert(ahead.subset_of(qtys.dom()));
    vstd::set_lib::lemma_set_subset_finite(qtys.dom(), ahead);
    lemma_len_subset(ahead, qtys.dom());
    if qtys.contains_key(price) {
        assert(ahead.subset_of(qtys.dom().remove(price)));
        lemma_len_subset(ahead, qtys.dom().remove(price));
    }
}

/// A price that is ahead of every other price has rank zero.
pub proof fn lemma_rank_of_best(qtys: Map<i64, i64>, is_bid: bool, price: i64)
    requires
        forall|other: i64|
            qtys.contains_key(other) && other != price ==> better(is_bid, price, other),
    ensures
        rank(qtys, is_bid, price) == 0,
{
    assert(better_prices(qtys, is_bid, price) =~= Set::<i64>::empty());
}

/// The best of the prices behind `ahead` has the rank after that of `ahead`.
pub proof fn lemma_rank_of_next(qtys: Map<i64, i64>, is_bid: bool, ahead: i64, price: i64)
    requires
        qtys.dom().finite(),
        qtys.contains_key(ahead),
        better(is_bid, ahead, price),
        forall|other: i64|
            qtys.contains_key(other) && better(is_bid, ahead, other) && other != price ==> better(
                is_bid,
                price,
                other,
            ),
    ensures
        rank(qtys, is_bid, price) == rank(qtys, is_bid, ahead) + 1,
{
    lemma_rank_bounds(qtys, is_bid, ahead);
    assert(better_prices(qtys, is_bid, price) =~= better_prices(qtys, is_bid, ahead).insert(
        ahead,
    ));
}

/// A price with no price behind it has all other prices ahead of it.
pub proof fn lemma_len_from_worst(qtys: Map<i64, i64>, is_bid: bool, price: i64)
    requires
        qtys.dom().finite(),
        qtys.contains_key(price),
        forall|other: i64| qtys.contains_key(other) ==> !better(is_bid, price, other),
    ensures
        qtys.len() == rank(qtys, is_bid, price) + 1,
{
    lemma_rank_bounds(qtys, is_bid, price);
    assert(qtys.dom() =~= better_prices(qtys, is_bid, price).insert(price));
}

/// Of two prices, the one that is ahead has the lower rank.
pub proof fn lemma_rank_monotone(qtys: Map<i64, i64>, is_bid: bool, ahead: i64, price: i64)
    requires
        qtys.dom().finite(),
        qtys.contains_key(ahead),
        better(is_bid, ahead, price),
    ensures
        rank(qtys, is_bid, ahead) < rank(qtys, is_bid, price),
{
    lemma_rank_bounds(qtys, is_bid, ahead);
    lemma_rank_bounds(qtys, is_bid, price);
    let wider = better_prices(qtys, is_bid, price);
    let narrower = better_prices(qtys, is_bid, ahead).insert(ahead);
    assert(narrower.subset_of(wider));
    lemma_len_subset(narrower, wider);
}

/// Two prices of the same rank are the same price.
pub proof fn lemma_rank_injective(qtys: Map<i64, i64>, is_bid: bool, a: i64, b: i64)
    requires
        qtys.dom().finite(),
        qtys.contains_key(a),
        qtys.contains_key(b),
        rank(qtys, is_bid, a) == rank(qtys, is_bid, b),
    ensures
        a == b,
{
    if better(is_bid, a, b) {
        lemma_rank_monotone(qtys, is_bid, a, b);
    } else if better(is_bid, b, a) {
        lemma_rank_monotone(qtys, is_bid, b, a);
    }
}

/// The level of `qtys` that exactly `r` of its prices are better than, if
/// there is one: the best level for `r` zero, the second best for `r` one,
/// and so on.
pub open spec fn level_of_rank(qtys: Map<i64, i64>, is_bid: bool, r: nat) -> Option<PriceLevel> {
    if exists|price: i64| qtys.contains_key(price) && rank(qtys, is_bid, price) == r {
        let price = choose|price: i64| qtys.contains_key(price) && rank(qtys, is_bid, price) == r;
        Some(PriceLevel { price, qty: qtys[price] })
    } else {
        None
    }
}

/// A side has a level of each rank below the number of its levels, which is
/// the one level of the side with that rank, and none of any other rank.
pub proof fn lemma_level_of_rank(qtys: Map<i64, i64>, is_bid: bool, r: nat)
    requires
        qtys.dom().finite(),
    ensures
        r >= qtys.len() ==> level_of_rank(qtys, is_bid, r) is None,
        forall|price: i64|
            qtys.contains_key(price) && rank(qtys, is_bid, price) == r ==> level_of_rank(
                qtys,
                is_bid,
                r,
            ) == Some(PriceLevel { price, qty: qtys[price] }),
{
    assert forall|price: i64|
        qtys.contains_key(price) && rank(qtys, is_bid, price) == r implies level_of_rank(
        qtys,
        is_bid,
        r,
    ) == Some(PriceLevel { price, qty: qtys[price] }) by {
        let chosen = choose|price: i64| qtys.contains_key(price) && rank(qtys, is_bid, price) == r;
        lemma_rank_injective(qtys, is_bid, chosen, price);
    }
    if r >= qtys.len() {
        assert forall|price: i64| qtys.contains_key(price) implies rank(qtys, is_bid, price)
            != r by {
            lemma_rank_bounds(qtys, is_bid, price);
        }
    }
}

} // verus!
