//! One side of the book: the quantity resting at each price.

use vstd::prelude::*;
use std::collections::HashMap;
use crate::price_level::{better, PriceLevel};
use crate::book_side_ops::{
    after_add, DeleteLevelType, FoundLevelType, LevelError, PricePointMutationOps,
    PricePointMutationOpsError, PricePointSummaryOps,
};
use crate::ranking::{
    lemma_len_from_worst, lemma_level_of_rank, lemma_rank_bounds, lemma_rank_of_best,
    lemma_rank_of_next, level_of_rank, rank,
};

verus! {

broadcast use vstd::std_specs::hash::group_hash_axioms;

/// The aggregated quantity at every price of one side of the book.
#[derive(Debug)]
pub struct BookSide {
    /// Whether this is the bid side, where the highest price is best.
    pub is_bid: bool,
    /// The level at each price that holds quantity.
    pub levels: HashMap<i64, PriceLevel>,
}

impl PricePointMutationOps for BookSide {
    /// Every level is filed under its own price and holds a strictly positive
    /// quantity.
    open spec fn wf(&self) -> bool {
        forall|price: i64|
            self.levels@.contains_key(price) ==> self.levels@[price].price == price
                && self.levels@[price].qty > 0
    }

    open spec fn bid_side(&self) -> bool {
        self.is_bid
    }

    open spec fn qtys(&self) -> Map<i64, i64> {
        Map::new(|price: i64| self.levels@.contains_key(price), |price: i64| self.levels@[price].qty)
    }

    proof fn lemma_wf_qtys(&self) {
        assert(self.qtys().dom() =~= self.levels@.dom());
    }

    fn add_qty(&mut self, price: i64, qty: i64) -> (added: (FoundLevelType, PriceLevel)) {
        let (kind, total) = match self.levels.get(&price) {
            Some(level) => (FoundLevelType::Existing, level.qty + qty),
            None => (FoundLevelType::New, qty),
        };
        let level = PriceLevel { price, qty: total };
        self.levels.insert(price, level);
        assert(self.qtys() =~= after_add(old(self).qtys(), price, qty as int));
        (kind, level)
    }

    fn delete_qty(&mut self, price: i64, qty: i64) -> (deleted: Result<
        (DeleteLevelType, PriceLevel),
        PricePointMutationOpsError,
    >) {
        let held = match self.levels.get(&price) {
            Some(level) => level.qty,
            None => {
                return Err(PricePointMutationOpsError::LevelError(LevelError::LevelNotFound));
            },
        };
        if qty > held {
            return Err(PricePointMutationOpsError::QtyExceedsAvailable);
        }
        let remaining = PriceLevel { price, qty: held - qty };
        if remaining.qty == 0 {
            self.levels.remove(&price);
            assert(self.qtys() =~= old(self).qtys().remove(price));
            Ok((DeleteLevelType::Deleted, remaining))
        } else {
            self.levels.insert(price, remaining);
            assert(self.qtys() =~= old(self).qtys().insert(price, remaining.qty));
            Ok((DeleteLevelType::QuantityDecreased, remaining))
        }
    }
}

impl BookSide {
    /// An empty side.
    pub fn new(is_bid: bool) -> (side: Self)
        ensures
            side.wf(),
            side.is_bid == is_bid,
            side.qtys() == Map::<i64, i64>::empty(),
    {
        let side = BookSide { is_bid, levels: HashMap::new() };
        assert(side.qtys() =~= Map::<i64, i64>::empty());
        side
    }

    /// The level at `price`, if the side holds quantity there.
    pub fn get_level(&self, price: i64) -> (level: Option<&PriceLevel>)
        requires
            self.wf(),
        ensures
            match level {
                Some(found) => self.qtys().contains_key(price) && *found == (PriceLevel {
                    price,
                    qty: self.qtys()[price],
                }),
                None => !self.qtys().contains_key(price),
            },
    {
        self.levels.get(&price)
    }

    /// The `n`-th best level, counted from one: the level with the highest
    /// price on the bid side and with the lowest on the ask side is the first.
    /// There is none for `n` zero or beyond the number of levels.
    pub fn get_nth_best_level(&self, n: usize) -> (nth: Option<PriceLevel>)
        requires
            self.wf(),
        ensures
            nth is Some <==> 1 <= n <= self.qtys().len(),
            nth matches Some(level) ==> {
                &&& self.qtys().contains_key(level.price)
                &&& level.qty == self.qtys()[level.price]
                &&& rank(self.qtys(), self.is_bid, level.price) == n - 1
            },
            n >= 1 ==> nth == level_of_rank(self.qtys(), self.is_bid, (n - 1) as nat),
    {
        assert(self.qtys().dom() =~= self.levels@.dom());
        proof {
            if n >= 1 {
                lemma_level_of_rank(self.qtys(), self.is_bid, (n - 1) as nat);
            }
        }
        if n == 0 {
            return None;
        }
        let mut bound: Option<i64> = None;
        let mut found: usize = 0;
        while found < n
            invariant
                self.wf(),
                self.qtys().dom().finite(),
                1 <= n,
                found <= n,
                found == 0 <==> bound is None,
                bound matches Some(price) ==> self.qtys().contains_key(price) && rank(
                    self.qtys(),
                    self.is_bid,
                    price,
                ) == found - 1,
            decreases n - found,
        {
            match self.best_price_behind(bound) {
                Some(price) => {
                    proof {
                        match bound {
                            Some(ahead) => lemma_rank_of_next(
                                self.qtys(),
                                self.is_bid,
                                ahead,
                                price,
                            ),
                            None => lemma_rank_of_best(self.qtys(), self.is_bid, price),
                        }
                    }
                    bound = Some(price);
                    found += 1;
                },
                None => {
                    proof {
                        match bound {
                            Some(worst) => lemma_len_from_worst(self.qtys(), self.is_bid, worst),
                            None => {
                                assert(self.qtys().dom() =~= Set::<i64>::empty());
                            },
                        }
                        lemma_level_of_rank(self.qtys(), self.is_bid, (n - 1) as nat);
                    }
                    return None;
                },
            }
        }
        match bound {
            Some(price) => {
                proof {
                    lemma_rank_bounds(self.qtys(), self.is_bid, price);
                }
                match self.levels.get(&price) {
                    Some(level) => Some(*level),
                    None => None,
                }
            },
            None => None,
        }
    }

    /// The best price that lies strictly behind `bound`, or the best price of
    /// all where there is no bound.
    fn best_price_behind(&self, bound: Option<i64>) -> (next: Option<i64>)
        requires
            self.wf(),
        ensures
            match next {
                Some(price) => {
                    &&& self.qtys().contains_key(price)
                    &&& behind(self.is_bid, bound, price)
                    &&& forall|other: i64|
                        self.qtys().contains_key(other) && behind(self.is_bid, bound, other)
                            && other != price ==> better(self.is_bid, price, other)
                },
                None => forall|other: i64|
                    self.qtys().contains_key(other) ==> !behind(self.is_bid, bound, other),
            },
    {
        let mut best: Option<i64> = None;
        for key in it: self.levels.keys()
            invariant
                it.seq().unref().to_set() == self.levels@.dom(),
                match best {
                    Some(price) => {
                        &&& self.levels@.contains_key(price)
                        &&& behind(self.is_bid, bound, price)
                        &&& forall|k: int|
                            0 <= k < it.index() && behind(self.is_bid, bound, *it.seq()[k])
                                && *it.seq()[k] != price ==> better(
                                self.is_bid,
                                price,
                                *it.seq()[k],
                            )
                    },
                    None => forall|k: int|
                        0 <= k < it.index() ==> !behind(self.is_bid, bound, *it.seq()[k]),
                },
        {
            let price = *key;
            let eligible = match bound {
                Some(limit) => if self.is_bid {
                    price < limit
                } else {
                    price > limit
                },
                None => true,
            };
            if eligible {
                let improves = match best {
                    Some(held) => if self.is_bid {
                        price > held
                    } else {
                        price < held
                    },
                    None => true,
                };
                if improves {
                    best = Some(price);
                }
            }
        }
        best
    }
}

/// `price` lies strictly behind `bound`, which every price does when there is
/// no bound.
pub open spec fn behind(is_bid: bool, bound: Option<i64>, price: i64) -> bool {
    bound matches Some(limit) ==> better(is_bid, limit, price)
}

impl PricePointSummaryOps for BookSide {
    fn qty_at_price(&self, price: i64) -> (held: i64) {
        match self.get_level(price) {
            Some(level) => level.qty,
            None => 0,
        }
    }
}

} // verus!
