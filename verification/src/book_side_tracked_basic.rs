//! One side of the book together with its single best level, brought up to
//! date with every change to the side.

use vstd::prelude::*;
use crate::book_side::BookSide;
use crate::book_side_ops::{
    DeleteLevelType, FoundLevelType, PricePointMutationOps, PricePointMutationOpsError,
    PricePointSummaryOps,
};
use crate::price_level::{better, PriceLevel};
use crate::ranking::{better_prices, lemma_rank_bounds};

verus! {

broadcast use vstd::std_specs::hash::group_hash_axioms;

/// `best_price` and `best_price_qty` name the best level of `qtys`: the price
/// that is ahead of every other price, with its quantity; or nothing where
/// `qtys` holds nothing.
pub open spec fn names_best(
    best_price: Option<i64>,
    best_price_qty: Option<i64>,
    qtys: Map<i64, i64>,
    is_bid: bool,
) -> bool {
    match best_price {
        Some(price) => {
            &&& qtys.contains_key(price)
            &&& best_price_qty == Some(qtys[price])
            &&& forall|other: i64|
                #![trigger qtys.contains_key(other)]
                qtys.contains_key(other) && other != price ==> better(is_bid, price, other)
        },
        None => {
            &&& best_price_qty is None
            &&& forall|other: i64| !qtys.contains_key(other)
        },
    }
}

/// A side of the book that keeps its best price and the quantity there at
/// hand.
#[derive(Debug)]
pub struct BookSideWithBasicTracking {
    pub book_side: BookSide,
    pub best_price: Option<i64>,
    pub best_price_qty: Option<i64>,
}

impl BookSideWithBasicTracking {
    /// An empty side.
    pub fn new(is_bid: bool) -> (side: Self)
        ensures
            side.wf(),
            side.bid_side() == is_bid,
            side.qtys() == Map::<i64, i64>::empty(),
            side.best_price is None,
            side.best_price_qty is None,
    {
        BookSideWithBasicTracking {
            book_side: BookSide::new(is_bid),
            best_price: None,
            best_price_qty: None,
        }
    }

    /// The level at `price`, if the side holds quantity there.
    pub fn get_level(&self, price: i64) -> (level: Option<&PriceLevel>)
        requires
            self.book_side.wf(),
        ensures
            match level {
                Some(found) => self.qtys().contains_key(price) && *found == (PriceLevel {
                    price,
                    qty: self.qtys()[price],
                }),
                None => !self.qtys().contains_key(price),
            },
    {
        self.book_side.get_level(price)
    }
}

impl PricePointMutationOps for BookSideWithBasicTracking {
    /// The side is valid, and the best price and its quantity are those of the
    /// side's best level.
    open spec fn wf(&self) -> bool {
        &&& self.book_side.wf()
        &&& names_best(
            self.best_price,
            self.best_price_qty,
            self.book_side.qtys(),
            self.book_side.is_bid,
        )
    }

    open spec fn bid_side(&self) -> bool {
        self.book_side.is_bid
    }

    open spec fn qtys(&self) -> Map<i64, i64> {
        self.book_side.qtys()
    }

    proof fn lemma_wf_qtys(&self) {
        self.book_side.lemma_wf_qtys();
    }

    fn add_qty(&mut self, price: i64, qty: i64) -> (added: (FoundLevelType, PriceLevel)) {
        let is_bid = self.book_side.is_bid;
        let (found_level_type, level) = self.book_side.add_qty(price, qty);
        let takes_lead = match self.best_price {
            Some(best_price) => level.price == best_price || if is_bid {
                level.price > best_price
            } else {
                level.price < best_price
            },
            None => true,
        };
        if takes_lead {
            self.best_price = Some(level.price);
            self.best_price_qty = Some(level.qty);
        }
        (found_level_type, level)
    }

    fn delete_qty(&mut self, price: i64, qty: i64) -> (deleted: Result<
        (DeleteLevelType, PriceLevel),
        PricePointMutationOpsError,
    >)
        ensures
            deleted is Err ==> final(self).best_price == old(self).best_price && final(self).best_price_qty == old(self).best_price_qty,
    {
        let (delete_type, level) = match self.book_side.delete_qty(price, qty) {
            Ok(done) => done,
            Err(error) => {
                return Err(error);
            },
        };
        if self.best_price == Some(level.price) {
            match delete_type {
                DeleteLevelType::QuantityDecreased => {
                    self.best_price_qty = Some(level.qty);
                },
                DeleteLevelType::Deleted => {
                    let next_best = self.book_side.get_nth_best_level(1);
                    proof {
                        let rest = self.book_side.qtys();
                        self.book_side.lemma_wf_qtys();
                        match next_best {
                            Some(best) => {
                                lemma_rank_bounds(rest, self.book_side.is_bid, best.price);
                                assert forall|other: i64|
                                    rest.contains_key(other) && other != best.price implies better(
                                    self.book_side.is_bid,
                                    best.price,
                                    other,
                                ) by {
                                    if better(self.book_side.is_bid, other, best.price) {
                                        assert(better_prices(
                                            rest,
                                            self.book_side.is_bid,
                                            best.price,
                                        ).contains(other));
                                    }
                                }
                            },
                            None => {
                                assert forall|other: i64| !rest.contains_key(other) by {
                                    if rest.contains_key(other) {
                                        assert(rest.dom().contains(other));
                                    }
                                }
                            },
                        }
                    }
                    match next_best {
                        Some(best) => {
                            self.best_price = Some(best.price);
                            self.best_price_qty = Some(best.qty);
                        },
                        None => {
                            self.best_price = None;
                            self.best_price_qty = None;
                        },
                    }
                },
            }
        }
        Ok((delete_type, level))
    }
}

impl PricePointSummaryOps for BookSideWithBasicTracking {
    fn qty_at_price(&self, price: i64) -> (held: i64) {
        match self.get_level(price) {
            Some(level) => level.qty,
            None => 0,
        }
    }
}

} // verus!
