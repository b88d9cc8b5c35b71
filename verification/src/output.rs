//! What is published after each event: the best level of each side, or the
//! best `N` levels of each side as columns of prices and quantities; and which
//! of the two a requested number of levels calls for.

use vstd::prelude::*;
use crate::order_book_tracked::OrderBookWithTopNTracking;
use crate::order_book_tracked_basic::OrderBookWithBasicTracking;
use crate::price_level::PriceLevel;
use crate::top_n_levels::slot_price;

verus! {

broadcast use vstd::array::group_array_axioms;

/// The largest number of levels per side that can be published.
pub const MAX_LEVELS: usize = 20;

/// A number of levels per side that cannot be published.
#[derive(Clone, Copy, Debug, PartialEq, Eq, Structural)]
pub struct UnsupportedLevelCountError {
    pub n: usize,
}

/// How much of each side is kept at hand and published.
#[derive(Clone, Copy, Debug, PartialEq, Eq, Structural)]
pub enum Tracking {
    /// The best level of each side.
    TopOfBook,
    /// The given number of best levels of each side, which is at least two.
    TopNLevels(usize),
}

/// The shape of a published record.
#[derive(Clone, Copy, Debug, PartialEq, Eq, Structural)]
pub enum BboShape {
    /// Four scalars: the best bid price and quantity, the best ask price and
    /// quantity.
    Scalars,
    /// Four arrays of the given width: bid prices, bid quantities, ask
    /// prices, ask quantities, best first.
    Arrays(usize),
}

/// The tracking that `n` levels per side call for: the best level alone for
/// one, the best `n` for two up to [`MAX_LEVELS`], and none otherwise.
pub fn tracking_for(n: usize) -> (tracking: Result<Tracking, UnsupportedLevelCountError>)
    ensures
        tracking == if n == 1 {
            Ok::<Tracking, UnsupportedLevelCountError>(Tracking::TopOfBook)
        } else if 2 <= n <= MAX_LEVELS {
            Ok::<Tracking, UnsupportedLevelCountError>(Tracking::TopNLevels(n))
        } else {
            Err::<Tracking, UnsupportedLevelCountError>(UnsupportedLevelCountError { n })
        },
{
    if n == 1 {
        Ok(Tracking::TopOfBook)
    } else if 2 <= n && n <= MAX_LEVELS {
        Ok(Tracking::TopNLevels(n))
    } else {
        Err(UnsupportedLevelCountError { n })
    }
}

/// The shape of the record published for `n` levels per side: arrays of
/// width `n` for more than one level, scalars otherwise.
pub fn bbo_shape(n: usize) -> (shape: BboShape)
    ensures
        shape == if n > 1 {
            BboShape::Arrays(n)
        } else {
            BboShape::Scalars
        },
{
    if n > 1 {
        BboShape::Arrays(n)
    } else {
        BboShape::Scalars
    }
}

/// The best level of each side; a side that holds nothing has neither price
/// nor quantity.
#[derive(Clone, Copy, Debug, PartialEq, Eq, Structural)]
pub struct TopOfBookOutput {
    pub bid_price_1: Option<i64>,
    pub bid_qty_1: Option<i64>,
    pub ask_price_1: Option<i64>,
    pub ask_qty_1: Option<i64>,
}

/// The best `N` levels of each side as columns, best first; the positions
/// behind the last level are empty.
#[derive(Clone, Copy, Debug, PartialEq, Eq)]
pub struct TopNLevelsOutput<const N: usize> {
    pub bid_px: [Option<i64>; N],
    pub bid_qty: [Option<i64>; N],
    pub ask_px: [Option<i64>; N],
    pub ask_qty: [Option<i64>; N],
}

/// The quantity held in a slot, if the slot is occupied.
pub open spec fn slot_qty(slot: Option<PriceLevel>) -> Option<i64> {
    match slot {
        Some(level) => Some(level.qty),
        None => None,
    }
}

/// The prices of a window, slot by slot.
pub fn prices<const N: usize>(levels: &[Option<PriceLevel>; N]) -> (column: [Option<i64>; N])
    ensures
        forall|i: int| 0 <= i < N ==> column@[i] == slot_price(levels@[i]),
{
    let mut column: [Option<i64>; N] = [None;N];
    let mut i: usize = 0;
    while i < N
        invariant
            i <= N,
            forall|j: int| 0 <= j < i ==> column@[j] == slot_price(levels@[j]),
        decreases N - i,
    {
        column[i] = match levels[i] {
            Some(level) => Some(level.price),
            None => None,
        };
        i += 1;
    }
    column
}

/// The quantities of a window, slot by slot.
pub fn qtys<const N: usize>(levels: &[Option<PriceLevel>; N]) -> (column: [Option<i64>; N])
    ensures
        forall|i: int| 0 <= i < N ==> column@[i] == slot_qty(levels@[i]),
{
    let mut column: [Option<i64>; N] = [None;N];
    let mut i: usize = 0;
    while i < N
        invariant
            i <= N,
            forall|j: int| 0 <= j < i ==> column@[j] == slot_qty(levels@[j]),
        decreases N - i,
    {
        column[i] = match levels[i] {
            Some(level) => Some(level.qty),
            None => None,
        };
        i += 1;
    }
    column
}

impl OrderBookWithBasicTracking {
    /// The best level of each side as it stands.
    pub fn top_of_book(&self) -> (output: TopOfBookOutput)
        ensures
            output == (TopOfBookOutput {
                bid_price_1: self.bids.best_price,
                bid_qty_1: self.bids.best_price_qty,
                ask_price_1: self.offers.best_price,
                ask_qty_1: self.offers.best_price_qty,
            }),
    {
        TopOfBookOutput {
            bid_price_1: self.bids.best_price,
            bid_qty_1: self.bids.best_price_qty,
            ask_price_1: self.offers.best_price,
            ask_qty_1: self.offers.best_price_qty,
        }
    }
}

impl<const N: usize> OrderBookWithTopNTracking<N> {
    /// The best `N` levels of each side as they stand.
    pub fn top_n_levels(&self) -> (output: TopNLevelsOutput<N>)
        ensures
            forall|i: int|
                0 <= i < N ==> {
                    &&& output.bid_px@[i] == slot_price(self.bids.slots()[i])
                    &&& output.bid_qty@[i] == slot_qty(self.bids.slots()[i])
                    &&& output.ask_px@[i] == slot_price(self.offers.slots()[i])
                    &&& output.ask_qty@[i] == slot_qty(self.offers.slots()[i])
                },
    {
        TopNLevelsOutput {
            bid_px: prices(self.bids.top_n()),
            bid_qty: qtys(self.bids.top_n()),
            ask_px: prices(self.offers.top_n()),
            ask_qty: qtys(self.offers.top_n()),
        }
    }
}

} // verus!
