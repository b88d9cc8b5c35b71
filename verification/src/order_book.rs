//! A book of two sides, and the changes to a quantity at a price routed to the
//! side that an event names.

use vstd::prelude::*;
use crate::book_side_ops::{
    add_report, after_add, after_delete, delete_report, qty_at, DeleteLevelType, FoundLevelType,
    PricePointMutationOps, PricePointMutationOpsError,
};
use crate::price_level::PriceLevel;

verus! {

/// A book with a bid side and an ask side of the same kind.
pub trait BidAskBook: Sized {
    /// The kind of side that the book is made of.
    type BookSide: PricePointMutationOps;

    /// The bid side.
    spec fn spec_bids(&self) -> Self::BookSide;

    /// The ask side.
    spec fn spec_asks(&self) -> Self::BookSide;

    /// The side that `is_bid` names, to change it in place.
    fn book_side(&mut self, is_bid: bool) -> (side: &mut Self::BookSide)
        ensures
            *side == if is_bid {
                old(self).spec_bids()
            } else {
                old(self).spec_asks()
            },
            final(self).spec_bids() == if is_bid {
                *final(side)
            } else {
                old(self).spec_bids()
            },
            final(self).spec_asks() == if is_bid {
                old(self).spec_asks()
            } else {
                *final(side)
            },
    ;

    /// The bid side.
    fn bids(&self) -> (side: &Self::BookSide)
        ensures
            *side == self.spec_bids(),
    ;

    /// The ask side.
    fn asks(&self) -> (side: &Self::BookSide)
        ensures
            *side == self.spec_asks(),
    ;
}

/// The side of `book` that `is_bid` names.
pub open spec fn side_of<B: BidAskBook>(book: &B, is_bid: bool) -> B::BookSide {
    if is_bid {
        book.spec_bids()
    } else {
        book.spec_asks()
    }
}

/// Both sides of `book` are valid, and each is of its kind.
pub open spec fn book_wf<B: BidAskBook>(book: &B) -> bool {
    &&& book.spec_bids().wf()
    &&& book.spec_bids().bid_side()
    &&& book.spec_asks().wf()
    &&& !book.spec_asks().bid_side()
}

/// Changes to the quantity at a price on either side of a book.
pub trait PricePointMutationBookOps: BidAskBook {
    /// Adds `qty` at `price` on the side that `is_bid` names.
    fn add_qty(&mut self, is_bid: bool, price: i64, qty: i64) -> (added: (
        FoundLevelType,
        PriceLevel,
    ))
        requires
            book_wf(old(self)),
            qty > 0,
            qty_at(side_of(old(self), is_bid).qtys(), price) + qty <= i64::MAX,
        ensures
            book_wf(final(self)),
            side_of(final(self), is_bid).qtys() == after_add(
                side_of(old(self), is_bid).qtys(),
                price,
                qty as int,
            ),
            side_of(final(self), !is_bid) == side_of(old(self), !is_bid),
            added == add_report(side_of(old(self), is_bid).qtys(), price, qty as int),
    {
        self.book_side(is_bid).add_qty(price, qty)
    }

    /// Takes `qty` from `price` on the side that `is_bid` names. Fails,
    /// leaving the book as it was, if that side holds nothing at `price` or
    /// less than `qty`.
    fn delete_qty(&mut self, is_bid: bool, price: i64, qty: i64) -> (deleted: Result<
        (DeleteLevelType, PriceLevel),
        PricePointMutationOpsError,
    >)
        requires
            book_wf(old(self)),
            qty > 0,
        ensures
            book_wf(final(self)),
            side_of(final(self), !is_bid) == side_of(old(self), !is_bid),
            match after_delete(side_of(old(self), is_bid).qtys(), price, qty as int) {
                Ok(remaining) => side_of(final(self), is_bid).qtys() == remaining && deleted
                    == Ok::<(DeleteLevelType, PriceLevel), PricePointMutationOpsError>(
                    delete_report(side_of(old(self), is_bid).qtys(), price, qty as int),
                ),
                Err(error) => side_of(final(self), is_bid).qtys() == side_of(
                    old(self),
                    is_bid,
                ).qtys() && deleted == Err::<
                    (DeleteLevelType, PriceLevel),
                    PricePointMutationOpsError,
                >(error),
            },
    {
        self.book_side(is_bid).delete_qty(price, qty)
    }

    /// Moves quantity on the side that `is_bid` names: takes `prev_qty` from
    /// `prev_price` and then adds `new_qty` at `new_price`. If the deletion
    /// fails nothing is added, the book is left as it was, and the failure is
    /// returned.
    fn modify_qty(
        &mut self,
        is_bid: bool,
        prev_price: i64,
        prev_qty: i64,
        new_price: i64,
        new_qty: i64,
    ) -> (modified: Result<(FoundLevelType, PriceLevel), PricePointMutationOpsError>)
        requires
            book_wf(old(self)),
            new_qty > 0,
            prev_qty > 0,
            after_delete(side_of(old(self), is_bid).qtys(), prev_price, prev_qty as int) matches Ok(
                remaining,
            ) ==> qty_at(remaining, new_price) + new_qty <= i64::MAX,
        ensures
            book_wf(final(self)),
            side_of(final(self), !is_bid) == side_of(old(self), !is_bid),
            match after_delete(side_of(old(self), is_bid).qtys(), prev_price, prev_qty as int) {
                Ok(remaining) => side_of(final(self), is_bid).qtys() == after_add(
                    remaining,
                    new_price,
                    new_qty as int,
                ) && modified == Ok::<(FoundLevelType, PriceLevel), PricePointMutationOpsError>(
                    add_report(remaining, new_price, new_qty as int),
                ),
                Err(error) => side_of(final(self), is_bid).qtys() == side_of(
                    old(self),
                    is_bid,
                ).qtys() && modified == Err::<
                    (FoundLevelType, PriceLevel),
                    PricePointMutationOpsError,
                >(error),
            },
    {
        self.book_side(is_bid).modify_qty(new_price, new_qty, prev_price, prev_qty)
    }
}

} // verus!
