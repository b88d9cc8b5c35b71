use order_book::book_side_ops::PricePointMutationOps;
use order_book::book_side_tracked::BookSideWithTopNTracking;
use order_book::price_level::PriceLevel;

fn level(price: i64, qty: i64) -> Option<PriceLevel> {
    Some(PriceLevel { price, qty })
}

#[test]
fn single_level_comes_and_goes() {
    let mut side = BookSideWithTopNTracking::<3>::new(true);
    side.add_qty(100, 10);
    assert_eq!(side.best_price(), Some(100));
    assert_eq!(side.best_price_qty(), Some(10));
    side.delete_qty(100, 10).unwrap();
    assert_eq!(side.best_price(), None);
    assert_eq!(side.best_price_qty(), None);
    assert_eq!(side.top_n(), &[None, None, None]);
}

#[test]
fn better_level_takes_the_first_slot() {
    let mut bids = BookSideWithTopNTracking::<3>::new(true);
    bids.add_qty(100, 10);
    bids.add_qty(101, 20);
    assert_eq!(bids.best_price(), Some(101));
    assert_eq!(bids.best_price_qty(), Some(20));
    assert_eq!(bids.top_n(), &[level(101, 20), level(100, 10), None]);

    let mut asks = BookSideWithTopNTracking::<3>::new(false);
    asks.add_qty(100, 10);
    asks.add_qty(101, 20);
    assert_eq!(asks.best_price(), Some(100));
    assert_eq!(asks.best_price_qty(), Some(10));
    assert_eq!(asks.top_n(), &[level(100, 10), level(101, 20), None]);
}

#[test]
fn quantity_at_one_price_grows_and_shrinks() {
    let mut side = BookSideWithTopNTracking::<3>::new(true);
    side.add_qty(100, 10);
    side.add_qty(100, 20);
    side.delete_qty(100, 15).unwrap();
    assert_eq!(side.best_price(), Some(100));
    assert_eq!(side.best_price_qty(), Some(15));
    side.delete_qty(100, 15).unwrap();
    assert_eq!(side.best_price(), None);
    assert!(side.book_side.levels.is_empty());
    assert_eq!(side.top_n(), &[None, None, None]);
}

#[test]
fn more_levels_than_slots() {
    let events = [(400, 19), (100, 6), (200, 20), (300, 30), (400, 21), (100, 4)];
    let mut bids = BookSideWithTopNTracking::<2>::new(true);
    let mut asks = BookSideWithTopNTracking::<2>::new(false);
    for (price, qty) in events {
        bids.add_qty(price, qty);
        asks.add_qty(price, qty);
    }
    assert_eq!(bids.top_n(), &[level(400, 40), level(300, 30)]);
    assert_eq!(asks.top_n(), &[level(100, 10), level(200, 20)]);
    for side in [&bids, &asks] {
        assert_eq!(side.book_side.levels.len(), 4);
        for (price, qty) in [(100, 10), (200, 20), (300, 30), (400, 40)] {
            assert_eq!(side.get_level(price), Some(&PriceLevel { price, qty }));
        }
    }
}

#[test]
fn cycle_of_adds_and_deletes_leaves_one_level() {
    let mut side = BookSideWithTopNTracking::<3>::new(true);
    side.add_qty(100, 10);
    side.delete_qty(100, 10).unwrap();
    side.add_qty(101, 11);
    side.delete_qty(101, 11).unwrap();
    side.add_qty(100, 12);
    side.delete_qty(100, 12).unwrap();
    side.add_qty(102, 13);
    assert_eq!(side.book_side.levels.len(), 1);
    assert_eq!(side.get_level(102), Some(&PriceLevel { price: 102, qty: 13 }));
    assert_eq!(side.top_n(), &[level(102, 13), None, None]);
}

#[test]
fn delete_behind_the_window_leaves_it_alone() {
    let mut side = BookSideWithTopNTracking::<2>::new(true);
    side.add_qty(300, 1);
    side.add_qty(200, 1);
    side.add_qty(100, 1);
    side.delete_qty(100, 1).unwrap();
    assert_eq!(side.top_n(), &[level(300, 1), level(200, 1)]);
    assert_eq!(side.book_side.levels.len(), 2);
    assert_eq!(side.get_level(300), Some(&PriceLevel { price: 300, qty: 1 }));
    assert_eq!(side.get_level(200), Some(&PriceLevel { price: 200, qty: 1 }));
    assert_eq!(side.get_level(100), None);
}

#[test]
fn worst_price_is_the_price_of_the_last_tracked_level() {
    let mut side = BookSideWithTopNTracking::<2>::new(true);
    assert_eq!(side.top_n_levels.worst_price, None);
    side.add_qty(100, 10);
    assert_eq!(side.top_n_levels.worst_price, Some(100));
    side.add_qty(99, 10);
    assert_eq!(side.top_n_levels.worst_price, Some(99));
    side.add_qty(101, 10);
    assert_eq!(side.top_n_levels.worst_price, Some(100));
    side.add_qty(98, 10);
    assert_eq!(side.top_n_levels.worst_price, Some(100));
    side.delete_qty(101, 10).unwrap();
    assert_eq!(side.top_n_levels.worst_price, Some(99));
    side.delete_qty(98, 10).unwrap();
    side.delete_qty(99, 10).unwrap();
    assert_eq!(side.top_n(), &[level(100, 10), None]);
    assert_eq!(side.top_n_levels.worst_price, Some(100));
    side.delete_qty(100, 10).unwrap();
    assert_eq!(side.top_n_levels.worst_price, None);
}
