use order_book::price_level::PriceLevel;
use order_book::top_n_levels::NLevels;

fn get_price_levels(prices: [i64; 5]) -> [Option<PriceLevel>; 5] {
    prices.map(|price| Some(PriceLevel::new(price)))
}

fn get_full_n_level() -> NLevels<5> {
    let mut n_levels = NLevels::<5>::default();
    for i in 1..6 {
        let level = PriceLevel::new(i * 2);
        n_levels.try_insert_sort(level);
    }
    assert_eq!(n_levels.levels, get_price_levels([10, 8, 6, 4, 2]));
    n_levels
}

fn get_full_n_level_reversed() -> NLevels<5> {
    let mut n_levels = NLevels::<5>::default();
    for i in 1..6 {
        let level = PriceLevel::new(i * 2);
        n_levels.try_insert_sort_reversed(level);
    }
    assert_eq!(n_levels.levels, get_price_levels([2, 4, 6, 8, 10]));
    n_levels
}

#[test]
fn test_n_levels_constructor() {
    let n_levels: NLevels<5> = NLevels::default();
    assert_eq!(n_levels.levels.len(), 5);
    assert!(n_levels.levels.iter().all(|level| level.is_none()));
    assert_eq!(n_levels.worst_price, None);
}

#[test]
fn test_insert() {
    let mut n_levels = NLevels::<5>::default();
    let level = PriceLevel::new(1);
    n_levels.try_insert_sort(level);
    assert_eq!(n_levels.levels[0], Some(level));

    let mut n_levels = NLevels::<5>::default();
    let level = PriceLevel::new(1);
    n_levels.try_insert_sort_reversed(level);
    assert_eq!(n_levels.levels[0], Some(level));
}

#[test]
fn test_add_level_when_not_full() {
    let mut n_levels = NLevels::<2>::default();
    let level: PriceLevel = PriceLevel::new(1);
    n_levels.try_insert_sort(level);
    assert_eq!(n_levels.worst_price, Some(1));
    assert_eq!(n_levels.levels, [Some(PriceLevel::new(1)), None]);

    n_levels.try_insert_sort(PriceLevel::new(2));
    assert_eq!(n_levels.worst_price, Some(1));
    assert_eq!(
        n_levels.levels,
        [Some(PriceLevel::new(2)), Some(PriceLevel::new(1))]
    );
}

#[test]
fn test_add_level_when_full() {
    let mut n_levels = get_full_n_level();
    let level: PriceLevel = PriceLevel::new(12);
    n_levels.try_insert_sort(level);
    assert_eq!(n_levels.levels, get_price_levels([12, 10, 8, 6, 4]));
    assert_eq!(n_levels.worst_price, Some(4));

    let mut n_levels = get_full_n_level();
    let level: PriceLevel = PriceLevel::new(5);
    n_levels.try_insert_sort(level);
    assert_eq!(n_levels.levels, get_price_levels([10, 8, 6, 5, 4]));
    assert_eq!(n_levels.worst_price, Some(4));

    let mut n_levels = get_full_n_level();
    let level: PriceLevel = PriceLevel::new(3);
    n_levels.try_insert_sort(level);
    assert_eq!(n_levels.levels, get_price_levels([10, 8, 6, 4, 3]));
    assert_eq!(n_levels.worst_price, Some(3));

    let mut n_levels = get_full_n_level_reversed();
    let level: PriceLevel = PriceLevel::new(1);
    n_levels.try_insert_sort_reversed(level);
    assert_eq!(n_levels.levels, get_price_levels([1, 2, 4, 6, 8]));
    assert_eq!(n_levels.worst_price, Some(8));

    let mut n_levels = get_full_n_level_reversed();
    let level: PriceLevel = PriceLevel::new(3);
    n_levels.try_insert_sort_reversed(level);
    assert_eq!(n_levels.levels, get_price_levels([2, 3, 4, 6, 8]));
    assert_eq!(n_levels.worst_price, Some(8));

    let mut n_levels = get_full_n_level_reversed();
    let level: PriceLevel = PriceLevel::new(9);
    n_levels.try_insert_sort_reversed(level);
    assert_eq!(n_levels.levels, get_price_levels([2, 4, 6, 8, 9]));
    assert_eq!(n_levels.worst_price, Some(9));
}

#[test]
fn test_try_insert_level_below_worst() {
    let mut n_levels = get_full_n_level();
    let level: PriceLevel = PriceLevel::new(1);
    n_levels.try_insert_sort(level);
    assert_eq!(n_levels.levels, get_price_levels([10, 8, 6, 4, 2]));
    assert_eq!(n_levels.worst_price, Some(2));

    n_levels.insert_sort(level);
    assert_eq!(n_levels.levels, get_price_levels([10, 8, 6, 4, 1]));
    assert_eq!(n_levels.worst_price, Some(1));

    let mut n_levels = get_full_n_level_reversed();
    let level: PriceLevel = PriceLevel::new(12);
    n_levels.try_insert_sort_reversed(level);
    assert_eq!(n_levels.levels, get_price_levels([2, 4, 6, 8, 10]));
    assert_eq!(n_levels.worst_price, Some(10));

    n_levels.insert_sort_reversed(level);
    assert_eq!(n_levels.levels, get_price_levels([2, 4, 6, 8, 12]));
    assert_eq!(n_levels.worst_price, Some(12));
}

#[test]
fn test_replace_sort() {
    let mut n_levels = get_full_n_level();
    let level: PriceLevel = PriceLevel::new(1);
    n_levels.replace_sort(6, Some(level));
    assert_eq!(n_levels.levels, get_price_levels([10, 8, 4, 2, 1]));
    assert_eq!(n_levels.worst_price, Some(1));

    let mut n_levels = get_full_n_level();
    let level: PriceLevel = PriceLevel::new(1);
    n_levels.replace_sort(10, Some(level));
    assert_eq!(n_levels.levels, get_price_levels([8, 6, 4, 2, 1]));
    assert_eq!(n_levels.worst_price, Some(1));

    let mut n_levels = get_full_n_level();
    let level: PriceLevel = PriceLevel::new(1);
    n_levels.replace_sort(2, Some(level));
    assert_eq!(n_levels.levels, get_price_levels([10, 8, 6, 4, 1]));
    assert_eq!(n_levels.worst_price, Some(1));

    let mut n_levels = get_full_n_level_reversed();
    let level: PriceLevel = PriceLevel::new(12);
    n_levels.replace_sort(6, Some(level));
    assert_eq!(n_levels.levels, get_price_levels([2, 4, 8, 10, 12]));
    assert_eq!(n_levels.worst_price, Some(12));

    let mut n_levels = get_full_n_level_reversed();
    let level: PriceLevel = PriceLevel::new(12);
    n_levels.replace_sort(10, Some(level));
    assert_eq!(n_levels.levels, get_price_levels([2, 4, 6, 8, 12]));
    assert_eq!(n_levels.worst_price, Some(12));

    let mut n_levels = get_full_n_level_reversed();
    let level: PriceLevel = PriceLevel::new(12);
    n_levels.replace_sort(2, Some(level));
    assert_eq!(n_levels.levels, get_price_levels([4, 6, 8, 10, 12]));
    assert_eq!(n_levels.worst_price, Some(12));
}

#[test]
fn best_level_is_the_first_slot() {
    let mut n_levels = NLevels::<3>::default();
    assert_eq!(n_levels.best_level(), None);
    assert_eq!(n_levels.best_price(), None);
    assert_eq!(n_levels.best_price_qty(), None);
    n_levels.insert_sort(PriceLevel { price: 5, qty: 50 });
    n_levels.insert_sort(PriceLevel { price: 7, qty: 70 });
    assert_eq!(n_levels.best_level(), Some(&PriceLevel { price: 7, qty: 70 }));
    assert_eq!(n_levels.best_price(), Some(7));
    assert_eq!(n_levels.best_price_qty(), Some(70));
}

#[test]
fn update_qty_changes_the_level_at_the_price_only() {
    let mut n_levels = get_full_n_level();
    n_levels.update_qty(6, 60);
    let mut expected = get_price_levels([10, 8, 6, 4, 2]);
    expected[2] = Some(PriceLevel { price: 6, qty: 60 });
    assert_eq!(n_levels.levels, expected);
    assert_eq!(n_levels.worst_price, Some(2));
    n_levels.update_qty(7, 70);
    assert_eq!(n_levels.levels, expected);
    assert_eq!(n_levels.worst_price, Some(2));
}

#[test]
fn replace_sort_with_nothing_closes_the_gap() {
    let mut n_levels = get_full_n_level();
    n_levels.replace_sort(6, None);
    assert_eq!(
        n_levels.levels,
        [
            Some(PriceLevel::new(10)),
            Some(PriceLevel::new(8)),
            Some(PriceLevel::new(4)),
            Some(PriceLevel::new(2)),
            None
        ]
    );
    assert_eq!(n_levels.worst_price, Some(2));
    n_levels.replace_sort(2, None);
    assert_eq!(
        n_levels.levels,
        [Some(PriceLevel::new(10)), Some(PriceLevel::new(8)), Some(PriceLevel::new(4)), None, None]
    );
    assert_eq!(n_levels.worst_price, Some(4));
    n_levels.replace_sort(10, None);
    n_levels.replace_sort(4, None);
    assert_eq!(n_levels.levels, [Some(PriceLevel::new(8)), None, None, None, None]);
    assert_eq!(n_levels.worst_price, Some(8));
    n_levels.replace_sort(8, None);
    assert_eq!(n_levels.levels, [None, None, None, None, None]);
    assert_eq!(n_levels.worst_price, None);
}

#[test]
fn worst_price_follows_the_last_occupied_slot() {
    let mut bids = NLevels::<3>::default();
    assert_eq!(bids.worst_price, None);
    bids.insert_sort(PriceLevel::new(10));
    assert_eq!(bids.worst_price, Some(10));
    bids.insert_sort(PriceLevel::new(12));
    assert_eq!(bids.levels, [Some(PriceLevel::new(12)), Some(PriceLevel::new(10)), None]);
    assert_eq!(bids.worst_price, Some(10));
    bids.insert_sort(PriceLevel::new(8));
    assert_eq!(bids.worst_price, Some(8));
    bids.update_qty(8, 5);
    assert_eq!(bids.worst_price, Some(8));

    let mut asks = NLevels::<3>::default();
    asks.insert_sort_reversed(PriceLevel::new(10));
    assert_eq!(asks.worst_price, Some(10));
    asks.insert_sort_reversed(PriceLevel::new(8));
    assert_eq!(asks.levels, [Some(PriceLevel::new(8)), Some(PriceLevel::new(10)), None]);
    assert_eq!(asks.worst_price, Some(10));
}

#[test]
fn window_with_a_free_slot_takes_a_worse_level() {
    let mut bids = NLevels::<3>::default();
    bids.try_insert_sort(PriceLevel::new(10));
    bids.try_insert_sort(PriceLevel::new(5));
    assert_eq!(bids.levels, [Some(PriceLevel::new(10)), Some(PriceLevel::new(5)), None]);
    assert_eq!(bids.worst_price, Some(5));
    bids.try_insert_sort(PriceLevel::new(1));
    assert_eq!(bids.worst_price, Some(1));
    bids.try_insert_sort(PriceLevel::new(0));
    assert_eq!(
        bids.levels,
        [Some(PriceLevel::new(10)), Some(PriceLevel::new(5)), Some(PriceLevel::new(1))]
    );
    assert_eq!(bids.worst_price, Some(1));

    let mut asks = NLevels::<2>::default();
    asks.try_insert_sort_reversed(PriceLevel::new(10));
    asks.try_insert_sort_reversed(PriceLevel::new(15));
    assert_eq!(asks.levels, [Some(PriceLevel::new(10)), Some(PriceLevel::new(15))]);
    assert_eq!(asks.worst_price, Some(15));
    asks.try_insert_sort_reversed(PriceLevel::new(20));
    assert_eq!(asks.levels, [Some(PriceLevel::new(10)), Some(PriceLevel::new(15))]);
    assert_eq!(asks.worst_price, Some(15));
}

#[test]
fn replace_sort_of_a_price_not_held_changes_nothing() {
    let mut n_levels = get_full_n_level();
    n_levels.replace_sort(7, Some(PriceLevel::new(1)));
    assert_eq!(n_levels.levels, get_price_levels([10, 8, 6, 4, 2]));
    assert_eq!(n_levels.worst_price, Some(2));
    n_levels.replace_sort(7, None);
    assert_eq!(n_levels.levels, get_price_levels([10, 8, 6, 4, 2]));
    assert_eq!(n_levels.worst_price, Some(2));
}

#[test]
fn insert_into_a_single_slot_replaces_it() {
    let mut n_levels = NLevels::<1>::new();
    n_levels.insert_sort(PriceLevel::new(5));
    assert_eq!(n_levels.levels, [Some(PriceLevel::new(5))]);
    assert_eq!(n_levels.worst_price, Some(5));
    n_levels.try_insert_sort(PriceLevel::new(4));
    assert_eq!(n_levels.levels, [Some(PriceLevel::new(5))]);
    n_levels.try_insert_sort(PriceLevel::new(6));
    assert_eq!(n_levels.levels, [Some(PriceLevel::new(6))]);
    assert_eq!(n_levels.worst_price, Some(6));
    n_levels.try_insert_sort_reversed(PriceLevel::new(7));
    assert_eq!(n_levels.levels, [Some(PriceLevel::new(6))]);
    n_levels.try_insert_sort_reversed(PriceLevel::new(3));
    assert_eq!(n_levels.levels, [Some(PriceLevel::new(3))]);
    assert_eq!(n_levels.worst_price, Some(3));
}

#[test]
fn new_price_level_holds_nothing() {
    assert_eq!(PriceLevel::new(42), PriceLevel { price: 42, qty: 0 });
}
