//! A two-sided book whose sides keep their best level at hand.

use vstd::prelude::*;
use crate::book_side_ops::PricePointMutationOps;
use crate::book_side_tracked_basic::BookSideWithBasicTracking;
use crate::order_book::{book_wf, BidAskBook, PricePointMutationBookOps};

verus! {

/// A book of bids and offers, each side with its best price and the quantity
/// there.
#[derive(Debug)]
pub struct OrderBookWithBasicTracking {
    pub bids: BookSideWithBasicTracking,
    pub offers: BookSideWithBasicTracking,
}

impl BidAskBook for OrderBookWithBasicTracking {
    type BookSide = BookSideWithBasicTracking;

    open spec fn spec_bids(&self) -> BookSideWithBasicTracking {
        self.bids
    }

    open spec fn spec_asks(&self) -> BookSideWithBasicTracking {
        self.offers
    }

    fn book_side(&mut self, is_bid: bool) -> (side: &mut BookSideWithBasicTracking) {
        if is_bid {
            &mut self.bids
        } else {
            &mut self.offers
        }
    }

    fn bids(&self) -> (side: &BookSideWithBasicTracking) {
        &self.bids
    }

    fn asks(&self) -> (side: &BookSideWithBasicTracking) {
        &self.offers
    }
}

impl PricePointMutationBookOps for OrderBookWithBasicTracking {

}

impl Default for OrderBookWithBasicTracking {
    /// An empty book.
    fn default() -> (book: Self)
        ensures
            book_wf(&book),
            book.bids.qtys() == Map::<i64, i64>::empty(),
            book.offers.qtys() == Map::<i64, i64>::empty(),
    {
        OrderBookWithBasicTracking::new()
    }
}

impl OrderBookWithBasicTracking {
    /// An empty book.
    pub fn new() -> (book: Self)
        ensures
            book_wf(&book),
            book.bids.qtys() == Map::<i64, i64>::empty(),
            book.offers.qtys() == Map::<i64, i64>::empty(),
    {
        OrderBookWithBasicTracking {
            bids: BookSideWithBasicTracking::new(true),
            offers: BookSideWithBasicTracking::new(false),
        }
    }
}

} // verus!
