use order_book::order_book::PricePointMutationBookOps;
use order_book::order_book_tracked::OrderBookWithTopNTracking;
use order_book::order_book_tracked_basic::OrderBookWithBasicTracking;
use order_book::output::{
    bbo_shape, prices, qtys, tracking_for, BboShape, TopOfBookOutput, Tracking,
    UnsupportedLevelCountError, MAX_LEVELS,
};
use order_book::price_level::PriceLevel;

#[test]
fn one_to_twenty_levels_are_supported() {
    assert_eq!(MAX_LEVELS, 20);
    assert_eq!(tracking_for(0), Err(UnsupportedLevelCountError { n: 0 }));
    assert_eq!(tracking_for(1), Ok(Tracking::TopOfBook));
    assert_eq!(tracking_for(2), Ok(Tracking::TopNLevels(2)));
    assert_eq!(tracking_for(20), Ok(Tracking::TopNLevels(20)));
    assert_eq!(tracking_for(21), Err(UnsupportedLevelCountError { n: 21 }));
    assert_eq!(tracking_for(usize::MAX), Err(UnsupportedLevelCountError { n: usize::MAX }));
}

#[test]
fn more_than_one_level_is_published_as_arrays() {
    assert_eq!(bbo_shape(0), BboShape::Scalars);
    assert_eq!(bbo_shape(1), BboShape::Scalars);
    assert_eq!(bbo_shape(2), BboShape::Arrays(2));
    assert_eq!(bbo_shape(20), BboShape::Arrays(20));
}

#[test]
fn columns_follow_the_slots() {
    let levels = [
        Some(PriceLevel { price: 101, qty: 20 }),
        Some(PriceLevel { price: 100, qty: 10 }),
        None,
    ];
    assert_eq!(prices(&levels), [Some(101), Some(100), None]);
    assert_eq!(qtys(&levels), [Some(20), Some(10), None]);
    let none: [Option<PriceLevel>; 0] = [];
    assert_eq!(prices(&none), []);
}

#[test]
fn top_of_book_follows_the_best_levels() {
    let mut book = OrderBookWithBasicTracking::default();
    assert_eq!(
        book.top_of_book(),
        TopOfBookOutput { bid_price_1: None, bid_qty_1: None, ask_price_1: None, ask_qty_1: None }
    );
    book.add_qty(true, 100, 10);
    book.add_qty(true, 99, 5);
    book.add_qty(false, 103, 7);
    book.add_qty(false, 102, 1);
    book.add_qty(false, 102, 1);
    assert_eq!(
        book.top_of_book(),
        TopOfBookOutput {
            bid_price_1: Some(100),
            bid_qty_1: Some(10),
            ask_price_1: Some(102),
            ask_qty_1: Some(2)
        }
    );
    book.delete_qty(true, 100, 10).unwrap();
    book.delete_qty(false, 102, 1).unwrap();
    assert_eq!(
        book.top_of_book(),
        TopOfBookOutput {
            bid_price_1: Some(99),
            bid_qty_1: Some(5),
            ask_price_1: Some(102),
            ask_qty_1: Some(1)
        }
    );
    book.delete_qty(true, 99, 5).unwrap();
    book.delete_qty(false, 102, 1).unwrap();
    assert_eq!(
        book.top_of_book(),
        TopOfBookOutput {
            bid_price_1: None,
            bid_qty_1: None,
            ask_price_1: Some(103),
            ask_qty_1: Some(7)
        }
    );
}

#[test]
fn top_n_levels_are_columns_of_the_windows() {
    let mut book = OrderBookWithTopNTracking::<3>::new();
    for (price, qty) in [(100, 10), (98, 8), (99, 9), (97, 7)] {
        book.add_qty(true, price, qty);
    }
    book.add_qty(false, 101, 1);
    let output = book.top_n_levels();
    assert_eq!(output.bid_px, [Some(100), Some(99), Some(98)]);
    assert_eq!(output.bid_qty, [Some(10), Some(9), Some(8)]);
    assert_eq!(output.ask_px, [Some(101), None, None]);
    assert_eq!(output.ask_qty, [Some(1), None, None]);
}

#[test]
fn basic_tracking_agrees_with_a_window_of_one() {
    let mut basic = OrderBookWithBasicTracking::new();
    let mut windowed = OrderBookWithTopNTracking::<1>::new();
    let mut state: u64 = 0x9e37_79b9_7f4a_7c15;
    for _ in 0..3000 {
        state ^= state << 13;
        state ^= state >> 7;
        state ^= state << 17;
        let is_bid = state % 2 == 0;
        let price = 50 + ((state >> 3) % 7) as i64;
        let qty = 1 + ((state >> 9) % 4) as i64;
        if (state >> 16) % 2 == 0 {
            assert_eq!(basic.add_qty(is_bid, price, qty), windowed.add_qty(is_bid, price, qty));
        } else {
            assert_eq!(
                basic.delete_qty(is_bid, price, qty),
                windowed.delete_qty(is_bid, price, qty)
            );
        }
        let top = basic.top_of_book();
        let columns = windowed.top_n_levels();
        assert_eq!([top.bid_price_1], columns.bid_px);
        assert_eq!([top.bid_qty_1], columns.bid_qty);
        assert_eq!([top.ask_price_1], columns.ask_px);
        assert_eq!([top.ask_qty_1], columns.ask_qty);
    }
}
