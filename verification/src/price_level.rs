//! A price level: the quantity resting at one price.

use vstd::prelude::*;

verus! {

/// The quantity aggregated at a single price, in integer ticks and units.
#[derive(Clone, Copy, Debug, PartialEq, Eq, Structural)]
pub struct PriceLevel {
    pub price: i64,
    pub qty: i64,
}

impl PriceLevel {
    /// A level at `price` that holds no quantity yet.
    pub fn new(price: i64) -> (level: Self)
        ensures
            level.price == price,
            level.qty == 0,
    {
        PriceLevel { price, qty: 0 }
    }
}

/// Whether price `a` ranks strictly ahead of price `b` on a side: the higher
/// price on the bid side, the lower price on the ask side.
pub open spec fn better(is_bid: bool, a: i64, b: i64) -> bool {
    if is_bid {
        a > b
    } else {
        a < b
    }
}

} // verus!
