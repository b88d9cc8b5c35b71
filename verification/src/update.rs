//! The events that change a book, read from rows of optional cells, and how
//! each is applied.

use vstd::prelude::*;
use crate::book_side_ops::{
    after_add, after_delete, after_modify, qty_at, PricePointMutationOps,
    PricePointMutationOpsError, PricePointSummaryOps,
};
use crate::order_book::{book_wf, side_of, BidAskBook, PricePointMutationBookOps};

verus! {

/// A row lacks a cell that its event needs.
#[derive(Clone, Copy, Debug, PartialEq, Eq, Structural)]
pub struct UpdateMissingValueError;

/// The quantity at a price is to be `qty` from now on.
#[derive(Clone, Copy, Debug, PartialEq, Eq, Structural)]
pub struct PriceUpdate {
    pub is_bid: bool,
    pub price: i64,
    pub qty: i64,
}

/// The quantity at a price changes by `qty`: it grows by a positive `qty` and
/// shrinks by a negative one.
#[derive(Clone, Copy, Debug, PartialEq, Eq, Structural)]
pub struct PriceMutation {
    pub is_bid: bool,
    pub price: i64,
    pub qty: i64,
}

/// Quantity `qty` arrives at `price`; where a previous price and quantity are
/// given, it arrives in place of that quantity at that price.
#[derive(Clone, Copy, Debug, PartialEq, Eq, Structural)]
pub struct PriceMutationWithModify {
    pub is_bid: bool,
    pub price: i64,
    pub qty: i64,
    pub prev_price: Option<i64>,
    pub prev_qty: Option<i64>,
}

/// The outcome of setting the quantity at `price` to `qty`: what is missing is
/// added, what is too much is taken, and a quantity that is held already
/// changes nothing. A negative `qty` asks for more than is held.
pub open spec fn after_price_update(qtys: Map<i64, i64>, price: i64, qty: i64) -> Result<
    Map<i64, i64>,
    PricePointMutationOpsError,
> {
    let held = qty_at(qtys, price);
    if qty > held {
        Ok(after_add(qtys, price, qty - held))
    } else if qty < held {
        after_delete(qtys, price, held - qty)
    } else {
        Ok(qtys)
    }
}

/// The outcome of changing the quantity at `price` by `delta`: a positive
/// `delta` is added, the size of a negative one is taken, and zero changes
/// nothing.
pub open spec fn after_price_mutation(qtys: Map<i64, i64>, price: i64, delta: i64) -> Result<
    Map<i64, i64>,
    PricePointMutationOpsError,
> {
    if delta > 0 {
        Ok(after_add(qtys, price, delta as int))
    } else if delta < 0 {
        after_delete(qtys, price, -delta)
    } else {
        Ok(qtys)
    }
}

/// The outcome of `update`: a replacement of the previous quantity at the
/// previous price where both are given, a plain addition where they are not.
pub open spec fn after_price_mutation_with_modify(
    qtys: Map<i64, i64>,
    update: PriceMutationWithModify,
) -> Result<Map<i64, i64>, PricePointMutationOpsError> {
    match (update.prev_price, update.prev_qty) {
        (Some(prev_price), Some(prev_qty)) => after_modify(
            qtys,
            update.price,
            update.qty as int,
            prev_price,
            prev_qty as int,
        ),
        _ => Ok(after_add(qtys, update.price, update.qty as int)),
    }
}

/// What applying an event to `before` has made of it in `after`: the side
/// that `is_bid` names holds `outcome` if that is a success, and what it held
/// if not, which is then the failure `applied`; the other side is as it was;
/// and the book is valid.
pub open spec fn applied_to<B: BidAskBook>(
    before: &B,
    after: &B,
    is_bid: bool,
    outcome: Result<Map<i64, i64>, PricePointMutationOpsError>,
    applied: Result<(), PricePointMutationOpsError>,
) -> bool {
    &&& book_wf(after)
    &&& side_of(after, !is_bid) == side_of(before, !is_bid)
    &&& match outcome {
        Ok(qtys) => applied is Ok && side_of(after, is_bid).qtys() == qtys,
        Err(error) => applied == Err::<(), PricePointMutationOpsError>(error) && side_of(
            after,
            is_bid,
        ).qtys() == side_of(before, is_bid).qtys(),
    }
}

impl PriceUpdate {
    /// The event of a row, which needs all three cells.
    pub fn from_row(is_bid: Option<bool>, price: Option<i64>, qty: Option<i64>) -> (update: Result<
        Self,
        UpdateMissingValueError,
    >)
        ensures
            update == match (is_bid, price, qty) {
                (Some(is_bid), Some(price), Some(qty)) => Ok::<Self, UpdateMissingValueError>(
                    PriceUpdate { is_bid, price, qty },
                ),
                _ => Err::<Self, UpdateMissingValueError>(UpdateMissingValueError),
            },
    {
        match (is_bid, price, qty) {
            (Some(is_bid), Some(price), Some(qty)) => Ok(PriceUpdate { is_bid, price, qty }),
            _ => Err(UpdateMissingValueError),
        }
    }

    /// Sets the quantity at the event's price on the event's side.
    pub fn apply_update<B>(&self, book: &mut B) -> (applied: Result<
        (),
        PricePointMutationOpsError,
    >) where B: PricePointMutationBookOps, B::BookSide: PricePointSummaryOps
        requires
            book_wf(old(book)),
        ensures
            applied_to(
                old(book),
                final(book),
                self.is_bid,
                after_price_update(side_of(old(book), self.is_bid).qtys(), self.price, self.qty),
                applied,
            ),
    {
        let held = if self.is_bid {
            book.bids().qty_at_price(self.price)
        } else {
            book.asks().qty_at_price(self.price)
        };
        proof {
            side_of(book, self.is_bid).lemma_wf_qtys();
        }
        if self.qty > held {
            book.add_qty(self.is_bid, self.price, self.qty - held);
            Ok(())
        } else if self.qty < held {
            if self.qty >= 0 {
                match book.delete_qty(self.is_bid, self.price, held - self.qty) {
                    Ok(_) => Ok(()),
                    Err(error) => Err(error),
                }
            } else if held == 0 {
                Err(
                    PricePointMutationOpsError::LevelError(
                        crate::book_side_ops::LevelError::LevelNotFound,
                    ),
                )
            } else {
                Err(PricePointMutationOpsError::QtyExceedsAvailable)
            }
        } else {
            Ok(())
        }
    }
}

impl PriceMutation {
    /// The event of a row, which needs all three cells.
    pub fn from_row(is_bid: Option<bool>, price: Option<i64>, qty: Option<i64>) -> (update: Result<
        Self,
        UpdateMissingValueError,
    >)
        ensures
            update == match (is_bid, price, qty) {
                (Some(is_bid), Some(price), Some(qty)) => Ok::<Self, UpdateMissingValueError>(
                    PriceMutation { is_bid, price, qty },
                ),
                _ => Err::<Self, UpdateMissingValueError>(UpdateMissingValueError),
            },
    {
        match (is_bid, price, qty) {
            (Some(is_bid), Some(price), Some(qty)) => Ok(PriceMutation { is_bid, price, qty }),
            _ => Err(UpdateMissingValueError),
        }
    }

    /// Whether the event can be applied to `book` without a total that
    /// outgrows `i64`.
    pub open spec fn fits<B: BidAskBook>(&self, book: &B) -> bool {
        self.qty > 0 ==> qty_at(side_of(book, self.is_bid).qtys(), self.price) + self.qty
            <= i64::MAX
    }

    /// Tests whether the event can be applied to `book`.
    pub fn can_apply<B>(&self, book: &B) -> (ok: bool) where
        B: BidAskBook,
        B::BookSide: PricePointSummaryOps,

        requires
            book_wf(book),
        ensures
            ok == self.fits(book),
    {
        if self.qty > 0 {
            let held = if self.is_bid {
                book.bids().qty_at_price(self.price)
            } else {
                book.asks().qty_at_price(self.price)
            };
            proof {
                side_of(book, self.is_bid).lemma_wf_qtys();
            }
            held <= i64::MAX - self.qty
        } else {
            true
        }
    }

    /// Changes the quantity at the event's price on the event's side.
    pub fn apply_update<B>(&self, book: &mut B) -> (applied: Result<
        (),
        PricePointMutationOpsError,
    >) where B: PricePointMutationBookOps, B::BookSide: PricePointSummaryOps
        requires
            book_wf(old(book)),
            self.fits(old(book)),
        ensures
            applied_to(
                old(book),
                final(book),
                self.is_bid,
                after_price_mutation(
                    side_of(old(book), self.is_bid).qtys(),
                    self.price,
                    self.qty,
                ),
                applied,
            ),
    {
        if self.qty > 0 {
            book.add_qty(self.is_bid, self.price, self.qty);
            Ok(())
        } else if self.qty == i64::MIN {
            let held = if self.is_bid {
                book.bids().qty_at_price(self.price)
            } else {
                book.asks().qty_at_price(self.price)
            };
            proof {
                side_of(book, self.is_bid).lemma_wf_qtys();
            }
            if held == 0 {
                Err(
                    PricePointMutationOpsError::LevelError(
                        crate::book_side_ops::LevelError::LevelNotFound,
                    ),
                )
            } else {
                Err(PricePointMutationOpsError::QtyExceedsAvailable)
            }
        } else if self.qty < 0 {
            match book.delete_qty(self.is_bid, self.price, -self.qty) {
                Ok(_) => Ok(()),
                Err(error) => Err(error),
            }
        } else {
            Ok(())
        }
    }
}

impl PriceMutationWithModify {
    /// The event of a row, which needs the side, the price and the quantity;
    /// the previous price and quantity may be absent.
    pub fn from_row(
        is_bid: Option<bool>,
        price: Option<i64>,
        qty: Option<i64>,
        prev_price: Option<i64>,
        prev_qty: Option<i64>,
    ) -> (update: Result<Self, UpdateMissingValueError>)
        ensures
            update == match (is_bid, price, qty) {
                (Some(is_bid), Some(price), Some(qty)) => Ok::<Self, UpdateMissingValueError>(
                    PriceMutationWithModify { is_bid, price, qty, prev_price, prev_qty },
                ),
                _ => Err::<Self, UpdateMissingValueError>(UpdateMissingValueError),
            },
    {
        match (is_bid, price, qty) {
            (Some(is_bid), Some(price), Some(qty)) => Ok(
                PriceMutationWithModify { is_bid, price, qty, prev_price, prev_qty },
            ),
            _ => Err(UpdateMissingValueError),
        }
    }

    /// Whether the event can be applied to `book`: its quantities are
    /// strictly positive and no total outgrows `i64`.
    pub open spec fn fits<B: BidAskBook>(&self, book: &B) -> bool {
        let qtys = side_of(book, self.is_bid).qtys();
        &&& self.qty > 0
        &&& match (self.prev_price, self.prev_qty) {
            (Some(prev_price), Some(prev_qty)) => prev_qty > 0 && (after_delete(
                qtys,
                prev_price,
                prev_qty as int,
            ) matches Ok(remaining) ==> qty_at(remaining, self.price) + self.qty <= i64::MAX),
            _ => qty_at(qtys, self.price) + self.qty <= i64::MAX,
        }
    }

    /// Tests whether the event can be applied to `book`.
    pub fn can_apply<B>(&self, book: &B) -> (ok: bool) where
        B: BidAskBook,
        B::BookSide: PricePointSummaryOps,

        requires
            book_wf(book),
        ensures
            ok == self.fits(book),
    {
        if self.qty <= 0 {
            return false;
        }
        let side = if self.is_bid {
            book.bids()
        } else {
            book.asks()
        };
        proof {
            side_of(book, self.is_bid).lemma_wf_qtys();
        }
        let held = side.qty_at_price(self.price);
        match (self.prev_price, self.prev_qty) {
            (Some(prev_price), Some(prev_qty)) => {
                if prev_qty <= 0 {
                    return false;
                }
                let prev_held = side.qty_at_price(prev_price);
                if prev_held == 0 || prev_qty > prev_held {
                    true
                } else if prev_price == self.price {
                    held - prev_qty <= i64::MAX - self.qty
                } else {
                    held <= i64::MAX - self.qty
                }
            },
            _ => held <= i64::MAX - self.qty,
        }
    }

    /// Replaces the previous quantity at the previous price by the event's
    /// quantity at its price, or adds the latter where no previous price and
    /// quantity are given.
    pub fn apply_update<B>(&self, book: &mut B) -> (applied: Result<
        (),
        PricePointMutationOpsError,
    >) where B: PricePointMutationBookOps
        requires
            book_wf(old(book)),
            self.fits(old(book)),
        ensures
            applied_to(
                old(book),
                final(book),
                self.is_bid,
                after_price_mutation_with_modify(side_of(old(book), self.is_bid).qtys(), *self),
                applied,
            ),
    {
        match (self.prev_price, self.prev_qty) {
            (Some(prev_price), Some(prev_qty)) => {
                match book.modify_qty(self.is_bid, prev_price, prev_qty, self.price, self.qty) {
                    Ok(_) => Ok(()),
                    Err(error) => Err(error),
                }
            },
            _ => {
                book.add_qty(self.is_bid, self.price, self.qty);
                Ok(())
            },
        }
    }
}

} // verus!
