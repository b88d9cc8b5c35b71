//! A two-sided book whose sides keep their best `N` levels at hand.

use vstd::prelude::*;
use crate::book_side::BookSide;
use crate::book_side_ops::PricePointMutationOps;
use crate::book_side_tracked::BookSideWithTopNTracking;
use crate::order_book::{book_wf, BidAskBook, PricePointMutationBookOps};
use crate::top_n_levels::NLevels;

verus! {

/// A book of bids and offers, each side with a window of its best `N` levels.
#[derive(Debug)]
pub struct OrderBookWithTopNTracking<const N: usize> {
    pub bids: BookSideWithTopNTracking<N>,
    pub offers: BookSideWithTopNTracking<N>,
}

impl<const N: usize> BidAskBook for OrderBookWithTopNTracking<N> {
    type BookSide = BookSideWithTopNTracking<N>;

    open spec fn spec_bids(&self) -> BookSideWithTopNTracking<N> {
        self.bids
    }

    open spec fn spec_asks(&self) -> BookSideWithTopNTracking<N> {
        self.offers
    }

    fn book_side(&mut self, is_bid: bool) -> (side: &mut BookSideWithTopNTracking<N>) {
        if is_bid {
            &mut self.bids
        } else {
            &mut self.offers
        }
    }

    fn bids(&self) -> (side: &BookSideWithTopNTracking<N>) {
        &self.bids
    }

    fn asks(&self) -> (side: &BookSideWithTopNTracking<N>) {
        &self.offers
    }
}

impl<const N: usize> PricePointMutationBookOps for OrderBookWithTopNTracking<N> {

}

impl<const N: usize> Default for OrderBookWithTopNTracking<N> {
    /// An empty book.
    fn default() -> (book: Self)
        ensures
            N > 0 ==> book_wf(&book),
            book.bids.qtys() == Map::<i64, i64>::empty(),
            book.offers.qtys() == Map::<i64, i64>::empty(),
    {
        OrderBookWithTopNTracking {
            bids: BookSideWithTopNTracking {
                book_side: BookSide::new(true),
                top_n_levels: NLevels::default(),
            },
            offers: BookSideWithTopNTracking {
                book_side: BookSide::new(false),
                top_n_levels: NLevels::default(),
            },
        }
    }
}

impl<const N: usize> OrderBookWithTopNTracking<N> {
    /// An empty book.
    pub fn new() -> (book: Self)
        requires
            N > 0,
        ensures
            book_wf(&book),
            book.bids.qtys() == Map::<i64, i64>::empty(),
            book.offers.qtys() == Map::<i64, i64>::empty(),
    {
        OrderBookWithTopNTracking {
            bids: BookSideWithTopNTracking::new(true),
            offers: BookSideWithTopNTracking::new(false),
        }
    }
}

} // verus!
