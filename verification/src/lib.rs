//! An incrementally maintained limit order book: quantity per price level on
//! each side, with a sorted window of the best price levels kept in step with
//! every update.

pub mod book_side;
pub mod book_side_ops;
pub mod book_side_tracked;
pub mod book_side_tracked_basic;
pub mod coherence;
pub mod order_book;
pub mod order_book_tracked;
pub mod order_book_tracked_basic;
pub mod output;
pub mod price_level;
pub mod ranking;
pub mod round_trip;
pub mod top_n_levels;
pub mod update;
