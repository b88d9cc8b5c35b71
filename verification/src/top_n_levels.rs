//! A fixed-capacity window of the best price levels of one book side, best
//! first.
//!
//! The window does not know which side it serves. Bid windows are kept from the
//! highest price down and are filled through [`NLevels::insert_sort`]; ask
//! windows are kept from the lowest price up and are filled through
//! [`NLevels::insert_sort_reversed`]. Every operation is linear in `N`, which is
//! expected to be small.

use vstd::prelude::*;
use crate::price_level::{better, PriceLevel};

verus! {

broadcast use vstd::array::group_array_axioms;

/// The price held in a slot, if the slot is occupied.
pub open spec fn slot_price(slot: Option<PriceLevel>) -> Option<i64> {
    match slot {
        Some(level) => Some(level.price),
        None => None,
    }
}

/// Slot `i` of `slots` is occupied and holds `price`.
pub open spec fn holds_price(slots: Seq<Option<PriceLevel>>, i: int, price: i64) -> bool {
    0 <= i < slots.len() && slot_price(slots[i]) == Some(price)
}

/// Some slot of `slots` holds `price`.
pub open spec fn tracks(slots: Seq<Option<PriceLevel>>, price: i64) -> bool {
    exists|i: int| holds_price(slots, i, price)
}

/// Slot `i` is the first slot of `slots` that holds `price`.
pub open spec fn first_holds_price(slots: Seq<Option<PriceLevel>>, i: int, price: i64) -> bool {
    holds_price(slots, i, price) && forall|j: int| 0 <= j < i ==> !holds_price(slots, j, price)
}

/// No empty slot comes before an occupied one.
pub open spec fn prefix_occupied(slots: Seq<Option<PriceLevel>>) -> bool {
    forall|i: int, j: int|
        #![trigger slots[i], slots[j]]
        0 <= i < j < slots.len() && slots[j] is Some ==> slots[i] is Some
}

/// Every occupied slot holds a strictly better price than each occupied slot
/// after it.
pub open spec fn strictly_ordered(slots: Seq<Option<PriceLevel>>, is_bid: bool) -> bool {
    forall|i: int, j: int|
        #![trigger slots[i], slots[j]]
        0 <= i < j < slots.len() && slots[i] is Some && slots[j] is Some ==> better(
            is_bid,
            slots[i].unwrap().price,
            slots[j].unwrap().price,
        )
}

/// Slot `i` is occupied by a level whose price is strictly better than `price`.
pub open spec fn leads(slots: Seq<Option<PriceLevel>>, is_bid: bool, price: i64, i: int) -> bool {
    slots[i] is Some && better(is_bid, slots[i].unwrap().price, price)
}

/// The first slot at or after `from`, short of the last slot, that does not
/// lead `price`; the last slot if there is none.
pub open spec fn insertion_point_from(
    slots: Seq<Option<PriceLevel>>,
    is_bid: bool,
    price: i64,
    from: int,
) -> int
    decreases slots.len() - from,
{
    if from + 1 >= slots.len() || !leads(slots, is_bid, price, from) {
        from
    } else {
        insertion_point_from(slots, is_bid, price, from + 1)
    }
}

/// The slot at which a new level with `price` enters `slots`: behind every
/// leading slot that holds a strictly better price, and at the last slot when
/// all slots before it do.
pub open spec fn insertion_point(slots: Seq<Option<PriceLevel>>, is_bid: bool, price: i64) -> int {
    insertion_point_from(slots, is_bid, price, 0)
}

/// `slots` with its last slot moved to `start` and the slots from `start` on
/// moved one place towards the end.
pub open spec fn rotated_right(slots: Seq<Option<PriceLevel>>, start: int) -> Seq<
    Option<PriceLevel>,
> {
    slots.subrange(0, start).push(slots[slots.len() - 1]) + slots.subrange(
        start,
        slots.len() - 1,
    )
}

/// `slots` with slot `start` moved to the end and the slots after `start` moved
/// one place towards the front.
pub open spec fn rotated_left(slots: Seq<Option<PriceLevel>>, start: int) -> Seq<
    Option<PriceLevel>,
> {
    slots.subrange(0, start) + slots.subrange(start + 1, slots.len() as int).push(slots[start])
}

/// `slots` after `level` has entered at its insertion point: the slots from
/// there on move one place towards the end and the former last slot is lost.
pub open spec fn inserted(slots: Seq<Option<PriceLevel>>, is_bid: bool, level: PriceLevel) -> Seq<
    Option<PriceLevel>,
> {
    let at = insertion_point(slots, is_bid, level.price);
    slots.subrange(0, at).push(Some(level)) + slots.subrange(at, slots.len() - 1)
}

/// `slots` after the first slot that holds `price` took `replacement` and moved
/// to the end; `slots` itself if no slot holds `price`.
pub open spec fn replaced(
    slots: Seq<Option<PriceLevel>>,
    price: i64,
    replacement: Option<PriceLevel>,
) -> Seq<Option<PriceLevel>> {
    if tracks(slots, price) {
        let at = choose|i: int| first_holds_price(slots, i, price);
        slots.subrange(0, at) + slots.subrange(at + 1, slots.len() as int).push(replacement)
    } else {
        slots
    }
}

/// `slots` after the first slot that holds `price` had its quantity set to
/// `qty`; `slots` itself if no slot holds `price`.
pub open spec fn requantified(slots: Seq<Option<PriceLevel>>, price: i64, qty: i64) -> Seq<
    Option<PriceLevel>,
> {
    Seq::new(
        slots.len(),
        |i: int|
            if first_holds_price(slots, i, price) {
                Some(PriceLevel { price, qty })
            } else {
                slots[i]
            },
    )
}

/// The number of slots among the first `k` up to and with the last occupied
/// one: zero if none of them is occupied.
pub open spec fn occupied_end_upto(slots: Seq<Option<PriceLevel>>, k: int) -> int
    decreases k,
{
    if k <= 0 {
        0
    } else if slots[k - 1] is Some {
        k
    } else {
        occupied_end_upto(slots, k - 1)
    }
}

/// The number of slots up to and with the last occupied one: zero if no slot
/// is occupied. Where the occupied slots form a prefix, this is how many they
/// are.
pub open spec fn occupied_end(slots: Seq<Option<PriceLevel>>) -> int {
    occupied_end_upto(slots, slots.len() as int)
}

/// The price in the last occupied slot; none if no slot is occupied.
pub open spec fn last_occupied_price(slots: Seq<Option<PriceLevel>>) -> Option<i64> {
    if occupied_end(slots) == 0 {
        None
    } else {
        slot_price(slots[occupied_end(slots) - 1])
    }
}

/// The best `N` price levels of one side, best first, with the empty slots at
/// the end.
#[derive(Debug)]
pub struct NLevels<const N: usize> {
    /// The tracked levels, best first.
    pub levels: [Option<PriceLevel>; N],
    /// The worst price that the window tracks: the price in its last occupied
    /// slot, and none while no slot is occupied.
    pub worst_price: Option<i64>,
}

impl<const N: usize> Default for NLevels<N> {
    /// An empty window.
    fn default() -> (window: Self)
        ensures
            window.worst_price is None,
            forall|i: int| 0 <= i < N ==> window.levels@[i] is None,
            N > 0 ==> window.wf(true) && window.wf(false),
    {
        let levels: [Option<PriceLevel>; N] = [None;N];
        assert(levels == vstd::array::spec_array_fill_for_copy_type::<Option<PriceLevel>, N>(
            None,
        ));
        assert forall|i: int| 0 <= i < N implies levels@[i] is None by {
            assert(vstd::array::spec_array_fill_for_copy_type::<Option<PriceLevel>, N>(
                None,
            ).view()[i] == None::<PriceLevel>);
        }
        proof {
            lemma_occupied_end_is(levels@, 0);
        }
        NLevels { levels, worst_price: None }
    }
}

impl<const N: usize> NLevels<N> {
    /// `worst_price` is the price in the last occupied slot, and none where no
    /// slot is occupied.
    pub open spec fn worst_price_consistent(&self) -> bool {
        self.worst_price == last_occupied_price(self.levels@)
    }

    /// The window is a valid window of a bid side (`is_bid`) or of an ask side:
    /// it has at least one slot, its occupied slots form a prefix, prices get
    /// strictly worse from slot to slot, and `worst_price` is the price in the
    /// last occupied slot.
    pub open spec fn wf(&self, is_bid: bool) -> bool {
        &&& N > 0
        &&& prefix_occupied(self.levels@)
        &&& strictly_ordered(self.levels@, is_bid)
        &&& self.worst_price_consistent()
    }

    /// An empty window.
    pub fn new() -> (window: Self)
        requires
            N > 0,
        ensures
            window.wf(true),
            window.wf(false),
            window.worst_price is None,
            forall|i: int| 0 <= i < N ==> window.levels@[i] is None,
    {
        let window: Self = Default::default();
        window
    }

    /// The level in the first slot.
    pub fn best_level(&self) -> (best: Option<&PriceLevel>)
        requires
            N > 0,
        ensures
            match best {
                Some(level) => self.levels@[0] == Some(*level),
                None => self.levels@[0] is None,
            },
    {
        self.levels[0].as_ref()
    }

    /// The price in the first slot.
    pub fn best_price(&self) -> (price: Option<i64>)
        requires
            N > 0,
        ensures
            price == slot_price(self.levels@[0]),
    {
        match self.levels[0] {
            Some(level) => Some(level.price),
            None => None,
        }
    }

    /// The quantity in the first slot.
    pub fn best_price_qty(&self) -> (qty: Option<i64>)
        requires
            N > 0,
        ensures
            match qty {
                Some(q) => self.levels@[0] is Some && self.levels@[0].unwrap().qty == q,
                None => self.levels@[0] is None,
            },
    {
        match self.levels[0] {
            Some(level) => Some(level.qty),
            None => None,
        }
    }

    /// Whether every slot is occupied.
    pub fn is_full(&self) -> (full: bool)
        requires
            N > 0,
        ensures
            full == (self.levels@[N - 1] is Some),
    {
        self.levels[N - 1].is_some()
    }

    /// Finds the price in the last occupied slot.
    fn last_price(&self) -> (price: Option<i64>)
        ensures
            price == last_occupied_price(self.levels@),
    {
        let mut i: usize = N;
        while i > 0
            invariant
                i <= N,
                occupied_end_upto(self.levels@, i as int) == occupied_end(self.levels@),
            decreases i,
        {
            if let Some(level) = self.levels[i - 1] {
                return Some(level.price);
            }
            i -= 1;
        }
        None
    }

    /// Finds the slot at which a level with `price` enters the window.
    fn insertion_index(&self, is_bid: bool, price: i64) -> (at: usize)
        requires
            N > 0,
        ensures
            at == insertion_point(self.levels@, is_bid, price),
            at < N,
    {
        let mut i: usize = 0;
        while i < N - 1
            invariant
                N > 0,
                i <= N - 1,
                insertion_point_from(self.levels@, is_bid, price, i as int) == insertion_point(
                    self.levels@,
                    is_bid,
                    price,
                ),
            decreases N - i,
        {
            match self.levels[i] {
                Some(level) => {
                    let ahead = if is_bid {
                        level.price > price
                    } else {
                        level.price < price
                    };
                    if !ahead {
                        return i;
                    }
                },
                None => {
                    return i;
                },
            }
            i += 1;
        }
        i
    }

    /// Moves the final slot to `start` and every slot from `start` on one place
    /// towards the end.
    fn rotate_right_from(&mut self, start: usize)
        requires
            start < N,
        ensures
            final(self).worst_price == old(self).worst_price,
            final(self).levels@ == rotated_right(old(self).levels@, start as int),
    {
        let ghost before = self.levels@;
        let last = self.levels[N - 1];
        let mut j: usize = N - 1;
        while j > start
            invariant
                start <= j <= N - 1,
                before.len() == N,
                self.worst_price == old(self).worst_price,
                forall|k: int| 0 <= k <= j ==> self.levels@[k] == before[k],
                forall|k: int| j < k < N ==> self.levels@[k] == before[k - 1],
            decreases j,
        {
            self.levels[j] = self.levels[j - 1];
            j -= 1;
        }
        self.levels[start] = last;
        assert(self.levels@ =~= rotated_right(before, start as int));
    }

    /// Moves slot `start` to the end and every slot after `start` one place
    /// towards the front.
    fn rotate_left_from(&mut self, start: usize)
        requires
            start < N,
        ensures
            final(self).worst_price == old(self).worst_price,
            final(self).levels@ == rotated_left(old(self).levels@, start as int),
    {
        let ghost before = self.levels@;
        let first = self.levels[start];
        let mut j: usize = start;
        while j < N - 1
            invariant
                start <= j <= N - 1,
                before.len() == N,
                self.worst_price == old(self).worst_price,
                forall|k: int| 0 <= k < start ==> self.levels@[k] == before[k],
                forall|k: int| start <= k < j ==> self.levels@[k] == before[k + 1],
                forall|k: int| j <= k < N && k != start ==> self.levels@[k] == before[k],
            decreases N - j,
        {
            self.levels[j] = self.levels[j + 1];
            j += 1;
        }
        self.levels[N - 1] = first;
        assert(self.levels@ =~= rotated_left(before, start as int));
    }

    /// Enters `new_level` into a bid window unless the window is full and the
    /// new price is below its worst price. A window with a free slot takes
    /// the level whatever its price.
    pub fn try_insert_sort(&mut self, new_level: PriceLevel)
        requires
            N > 0,
        ensures
            turned_away(old(self).levels@, old(self).worst_price, true, new_level.price)
                ==> *final(self) == *old(self),
            !turned_away(old(self).levels@, old(self).worst_price, true, new_level.price)
                ==> final(self).levels@ == inserted(old(self).levels@, true, new_level)
                && final(self).worst_price_consistent(),
            old(self).wf(true) && !tracks(old(self).levels@, new_level.price)
                ==> final(self).wf(true),
    {
        if self.is_full() {
            if let Some(worst_price) = self.worst_price {
                if worst_price > new_level.price {
                    return ;
                }
            }
        }
        self.insert_sort(new_level);
    }

    /// Enters `new_level` into a bid window at its place in descending price
    /// order. The levels from there on move one slot towards the end and the
    /// level in the final slot, if any, leaves the window.
    pub fn insert_sort(&mut self, new_level: PriceLevel)
        requires
            N > 0,
        ensures
            final(self).levels@ == inserted(old(self).levels@, true, new_level),
            final(self).worst_price_consistent(),
            old(self).wf(true) && !tracks(old(self).levels@, new_level.price)
                ==> final(self).wf(true),
    {
        proof {
            if old(self).wf(true) && !tracks(old(self).levels@, new_level.price) {
                lemma_inserted_keeps_order(old(self).levels@, true, new_level);
            }
        }
        let at = self.insertion_index(true, new_level.price);
        self.levels[N - 1] = Some(new_level);
        self.rotate_right_from(at);
        self.worst_price = self.last_price();
        assert(self.levels@ =~= inserted(old(self).levels@, true, new_level));
    }

    /// Enters `new_level` into an ask window unless the window is full and the
    /// new price is above its worst price. A window with a free slot takes
    /// the level whatever its price.
    pub fn try_insert_sort_reversed(&mut self, new_level: PriceLevel)
        requires
            N > 0,
        ensures
            turned_away(old(self).levels@, old(self).worst_price, false, new_level.price)
                ==> *final(self) == *old(self),
            !turned_away(old(self).levels@, old(self).worst_price, false, new_level.price)
                ==> final(self).levels@ == inserted(old(self).levels@, false, new_level)
                && final(self).worst_price_consistent(),
            old(self).wf(false) && !tracks(old(self).levels@, new_level.price)
                ==> final(self).wf(false),
    {
        if self.is_full() {
            if let Some(worst_price) = self.worst_price {
                if worst_price < new_level.price {
                    return ;
                }
            }
        }
        self.insert_sort_reversed(new_level);
    }

    /// Enters `new_level` into an ask window at its place in ascending price
    /// order. The levels from there on move one slot towards the end and the
    /// level in the final slot, if any, leaves the window.
    pub fn insert_sort_reversed(&mut self, new_level: PriceLevel)
        requires
            N > 0,
        ensures
            final(self).levels@ == inserted(old(self).levels@, false, new_level),
            final(self).worst_price_consistent(),
            old(self).wf(false) && !tracks(old(self).levels@, new_level.price)
                ==> final(self).wf(false),
    {
        proof {
            if old(self).wf(false) && !tracks(old(self).levels@, new_level.price) {
                lemma_inserted_keeps_order(old(self).levels@, false, new_level);
            }
        }
        let at = self.insertion_index(false, new_level.price);
        self.levels[N - 1] = Some(new_level);
        self.rotate_right_from(at);
        self.worst_price = self.last_price();
        assert(self.levels@ =~= inserted(old(self).levels@, false, new_level));
    }

    /// Takes the level at `price_to_replace` out of the window and enters
    /// `new_level` at the end: the first slot that holds the price takes
    /// `new_level`, and the slots from there on turn one place towards the
    /// front, which carries `new_level` into the final slot. The worst price
    /// is then the price in the last occupied slot. A window that does not
    /// hold the price is left as it is.
    pub fn replace_sort(&mut self, price_to_replace: i64, new_level: Option<PriceLevel>)
        ensures
            final(self).levels@ == replaced(old(self).levels@, price_to_replace, new_level),
            final(self).worst_price == if tracks(old(self).levels@, price_to_replace) {
                last_occupied_price(final(self).levels@)
            } else {
                old(self).worst_price
            },
            forall|is_bid: bool|
                old(self).wf(is_bid) && follows_all(old(self).levels@, is_bid, new_level)
                    ==> final(self).wf(is_bid),
    {
        let mut i: usize = 0;
        while i < N
            invariant
                i <= N,
                *self == *old(self),
                forall|j: int| 0 <= j < i ==> !holds_price(self.levels@, j, price_to_replace),
            decreases N - i,
        {
            if let Some(level) = self.levels[i] {
                if level.price == price_to_replace {
                    proof {
                        let at = choose|k: int|
                            first_holds_price(old(self).levels@, k, price_to_replace);
                        assert(first_holds_price(old(self).levels@, i as int, price_to_replace));
                        assert(at == i);
                        assert forall|is_bid: bool|
                            old(self).wf(is_bid) && follows_all(
                                old(self).levels@,
                                is_bid,
                                new_level,
                            ) implies prefix_occupied(
                            replaced(old(self).levels@, price_to_replace, new_level),
                        ) && strictly_ordered(
                            replaced(old(self).levels@, price_to_replace, new_level),
                            is_bid,
                        ) by {
                            lemma_replaced_keeps_order(
                                old(self).levels@,
                                is_bid,
                                price_to_replace,
                                new_level,
                            );
                        }
                    }
                    self.levels[i] = new_level;
                    self.rotate_left_from(i);
                    self.worst_price = self.last_price();
                    assert(self.levels@ =~= replaced(
                        old(self).levels@,
                        price_to_replace,
                        new_level,
                    ));
                    return ;
                }
            }
            i += 1;
        }
        assert(!tracks(old(self).levels@, price_to_replace));
    }

    /// Sets the quantity of the level at `price` to `new_qty`. A window that
    /// does not hold the price is left as it is.
    pub fn update_qty(&mut self, price: i64, new_qty: i64)
        ensures
            final(self).levels@ == requantified(old(self).levels@, price, new_qty),
            final(self).worst_price == old(self).worst_price,
            forall|is_bid: bool| old(self).wf(is_bid) ==> final(self).wf(is_bid),
    {
        let mut i: usize = 0;
        while i < N
            invariant
                i <= N,
                *self == *old(self),
                forall|j: int| 0 <= j < i ==> !holds_price(self.levels@, j, price),
            decreases N - i,
        {
            if let Some(level) = self.levels[i] {
                if level.price == price {
                    assert(first_holds_price(old(self).levels@, i as int, price));
                    self.levels[i] = Some(PriceLevel { price: level.price, qty: new_qty });
                    assert(self.levels@ =~= requantified(old(self).levels@, price, new_qty));
                    proof {
                        lemma_last_occupied_price_of_same_prices(old(self).levels@, self.levels@);
                    }
                    return ;
                }
            }
            i += 1;
        }
        assert(self.levels@ =~= requantified(old(self).levels@, price, new_qty));
    }
}

/// A window with these slots and this worst price has no place for a level
/// at `price`: it is full and its worst price is strictly better.
pub open spec fn turned_away(
    slots: Seq<Option<PriceLevel>>,
    worst_price: Option<i64>,
    is_bid: bool,
    price: i64,
) -> bool {
    &&& slots[slots.len() - 1] is Some
    &&& worst_price matches Some(worst) && better(is_bid, worst, price)
}

/// Among the first `k` slots, the last occupied one is occupied and those
/// behind it are empty.
pub proof fn lemma_occupied_end_upto(slots: Seq<Option<PriceLevel>>, k: int)
    requires
        0 <= k <= slots.len(),
    ensures
        0 <= occupied_end_upto(slots, k) <= k,
        occupied_end_upto(slots, k) > 0 ==> slots[occupied_end_upto(slots, k) - 1] is Some,
        forall|j: int| occupied_end_upto(slots, k) <= j < k ==> slots[j] is None,
    decreases k,
{
    if k > 0 && slots[k - 1] is None {
        lemma_occupied_end_upto(slots, k - 1);
    }
}

/// A place with an occupied slot before it, if any slot is before it, and
/// none but empty slots from it on is where the occupied slots end.
pub proof fn lemma_occupied_end_is(slots: Seq<Option<PriceLevel>>, end: int)
    requires
        0 <= end <= slots.len(),
        end > 0 ==> slots[end - 1] is Some,
        forall|j: int| end <= j < slots.len() ==> slots[j] is None,
    ensures
        occupied_end(slots) == end,
{
    lemma_occupied_end_upto(slots, slots.len() as int);
    let found = occupied_end(slots);
    if found < end {
        assert(slots[end - 1] is None);
    } else if end < found {
        assert(slots[found - 1] is None);
    }
}

/// Two windows that hold the same prices in the same slots have the same
/// last occupied price.
pub proof fn lemma_last_occupied_price_of_same_prices(
    a: Seq<Option<PriceLevel>>,
    b: Seq<Option<PriceLevel>>,
)
    requires
        a.len() == b.len(),
        forall|i: int| 0 <= i < a.len() ==> slot_price(a[i]) == slot_price(b[i]),
    ensures
        occupied_end(a) == occupied_end(b),
        last_occupied_price(a) == last_occupied_price(b),
{
    lemma_occupied_end_upto(a, a.len() as int);
    let end = occupied_end(a);
    assert forall|j: int| end <= j < b.len() implies b[j] is None by {
        assert(slot_price(a[j]) == slot_price(b[j]));
    }
    if end > 0 {
        assert(slot_price(a[end - 1]) == slot_price(b[end - 1]));
    }
    lemma_occupied_end_is(b, end);
}

/// In a window whose occupied slots form a prefix, the worst price is the
/// price in the occupied slot that no occupied slot follows, and there is
/// none exactly if the first slot is empty.
pub proof fn lemma_last_occupied_price(slots: Seq<Option<PriceLevel>>)
    requires
        slots.len() > 0,
        prefix_occupied(slots),
    ensures
        forall|i: int|
            0 <= i < slots.len() && slots[i] is Some && (i + 1 < slots.len() ==> slots[i + 1]
                is None) ==> last_occupied_price(slots) == Some(slots[i].unwrap().price),
        last_occupied_price(slots) is None <==> slots[0] is None,
        slots[slots.len() - 1] is Some ==> last_occupied_price(slots) == slot_price(
            slots[slots.len() - 1],
        ),
{
    lemma_occupied_end_upto(slots, slots.len() as int);
    let end = occupied_end(slots);
    assert forall|i: int|
        0 <= i < slots.len() && slots[i] is Some && (i + 1 < slots.len() ==> slots[i + 1]
            is None) implies last_occupied_price(slots) == Some(slots[i].unwrap().price) by {
        if i + 1 < end {
            assert(slots[end - 1] is Some);
            assert(slots[i + 1] is Some);
        }
    }
    if end > 0 {
        assert(slots[end - 1] is Some);
        assert(slots[0] is Some);
    }
}

/// Every occupied slot of `slots` holds a strictly better price than
/// `replacement`, which, if it is a level, comes to a window that is full.
pub open spec fn follows_all(
    slots: Seq<Option<PriceLevel>>,
    is_bid: bool,
    replacement: Option<PriceLevel>,
) -> bool {
    replacement matches Some(level) ==> forall|i: int|
        0 <= i < slots.len() ==> leads(slots, is_bid, level.price, i)
}

/// A window that holds `price` has a first slot that does.
pub proof fn lemma_first_holder(slots: Seq<Option<PriceLevel>>, price: i64, holder: int)
    requires
        holds_price(slots, holder, price),
    ensures
        first_holds_price(slots, choose|i: int| first_holds_price(slots, i, price), price),
    decreases holder,
{
    if exists|j: int| 0 <= j < holder && holds_price(slots, j, price) {
        let j = choose|j: int| 0 <= j < holder && holds_price(slots, j, price);
        lemma_first_holder(slots, price, j);
    } else {
        assert(first_holds_price(slots, holder, price));
    }
}

/// The slots of a window after a level has entered it: those before the
/// insertion point stay, the new level stands at the insertion point, and those
/// behind it are the former slots moved one place towards the end.
pub proof fn lemma_inserted_slots(slots: Seq<Option<PriceLevel>>, is_bid: bool, level: PriceLevel)
    requires
        slots.len() > 0,
    ensures
        inserted(slots, is_bid, level).len() == slots.len(),
        0 <= insertion_point(slots, is_bid, level.price) < slots.len(),
        forall|i: int|
            0 <= i < insertion_point(slots, is_bid, level.price) ==> inserted(
                slots,
                is_bid,
                level,
            )[i] == slots[i] && leads(slots, is_bid, level.price, i),
        inserted(slots, is_bid, level)[insertion_point(slots, is_bid, level.price)] == Some(level),
        forall|i: int|
            insertion_point(slots, is_bid, level.price) < i < slots.len() ==> inserted(
                slots,
                is_bid,
                level,
            )[i] == slots[i - 1],
        insertion_point(slots, is_bid, level.price) + 1 < slots.len() ==> !leads(
            slots,
            is_bid,
            level.price,
            insertion_point(slots, is_bid, level.price),
        ),
{
    lemma_insertion_point_from(slots, is_bid, level.price, 0);
}

/// The insertion point lies behind the slots that lead `price` and, short of
/// the last slot, at one that does not.
pub proof fn lemma_insertion_point_from(
    slots: Seq<Option<PriceLevel>>,
    is_bid: bool,
    price: i64,
    from: int,
)
    requires
        0 <= from < slots.len(),
    ensures
        from <= insertion_point_from(slots, is_bid, price, from) < slots.len(),
        forall|j: int|
            from <= j < insertion_point_from(slots, is_bid, price, from) ==> leads(
                slots,
                is_bid,
                price,
                j,
            ),
        insertion_point_from(slots, is_bid, price, from) + 1 < slots.len() ==> !leads(
            slots,
            is_bid,
            price,
            insertion_point_from(slots, is_bid, price, from),
        ),
    decreases slots.len() - from,
{
    if from + 1 >= slots.len() || !leads(slots, is_bid, price, from) {
    } else {
        lemma_insertion_point_from(slots, is_bid, price, from + 1);
    }
}

/// Entering a level whose price the window does not hold keeps the occupied
/// slots a prefix and the prices strictly ordered.
pub proof fn lemma_inserted_keeps_order(
    slots: Seq<Option<PriceLevel>>,
    is_bid: bool,
    level: PriceLevel,
)
    requires
        slots.len() > 0,
        prefix_occupied(slots),
        strictly_ordered(slots, is_bid),
        !tracks(slots, level.price),
    ensures
        prefix_occupied(inserted(slots, is_bid, level)),
        strictly_ordered(inserted(slots, is_bid, level), is_bid),
{
    let at = insertion_point(slots, is_bid, level.price);
    let after = inserted(slots, is_bid, level);
    lemma_inserted_slots(slots, is_bid, level);
    assert(!holds_price(slots, at, level.price));
    assert forall|i: int, j: int| 0 <= i < j < after.len() && after[j] is Some implies after[i]
        is Some by {
        if i > at {
            assert(slots[j - 1] is Some);
            assert(slots[i - 1] is Some);
        }
    }
    assert forall|i: int, j: int|
        0 <= i < j < after.len() && after[i] is Some && after[j] is Some implies better(
        is_bid,
        after[i].unwrap().price,
        after[j].unwrap().price,
    ) by {
        if j < at {
            assert(after[i] == slots[i] && after[j] == slots[j]);
            assert(better(is_bid, slots[i].unwrap().price, slots[j].unwrap().price));
        } else if i < at && j == at {
            assert(after[i] == slots[i] && after[j] == Some(level));
            assert(leads(slots, is_bid, level.price, i));
        } else if i < at && j > at {
            assert(after[i] == slots[i] && after[j] == slots[j - 1]);
            assert(better(is_bid, slots[i].unwrap().price, slots[j - 1].unwrap().price));
        } else if i == at {
            assert(after[i] == Some(level) && after[j] == slots[j - 1]);
            assert(slots[j - 1] is Some);
            assert(slots[at] is Some);
            assert(!leads(slots, is_bid, level.price, at));
            if j - 1 > at {
                assert(better(is_bid, slots[at].unwrap().price, slots[j - 1].unwrap().price));
            }
        } else {
            assert(after[i] == slots[i - 1] && after[j] == slots[j - 1]);
            assert(better(is_bid, slots[i - 1].unwrap().price, slots[j - 1].unwrap().price));
        }
    }
}

/// Taking a level out of the window and entering at the end a level that every
/// tracked price leads, or nothing, keeps the occupied slots a prefix and the
/// prices strictly ordered.
pub proof fn lemma_replaced_keeps_order(
    slots: Seq<Option<PriceLevel>>,
    is_bid: bool,
    price: i64,
    replacement: Option<PriceLevel>,
)
    requires
        prefix_occupied(slots),
        strictly_ordered(slots, is_bid),
        follows_all(slots, is_bid, replacement),
    ensures
        prefix_occupied(replaced(slots, price, replacement)),
        strictly_ordered(replaced(slots, price, replacement), is_bid),
{
    if tracks(slots, price) {
        lemma_first_holder(slots, price, choose|i: int| holds_price(slots, i, price));
        let at = choose|i: int| first_holds_price(slots, i, price);
        let after = replaced(slots, price, replacement);
        assert(after.len() == slots.len());
        assert forall|i: int| 0 <= i < after.len() - 1 implies after[i] == slots[if i < at {
            i
        } else {
            i + 1
        }] by {}
        let last = after.len() - 1;
        assert(after[last] == replacement);
        assert forall|i: int, j: int| 0 <= i < j < after.len() && after[j] is Some implies after[i]
            is Some by {
            let from_i = if i < at {
                i
            } else {
                i + 1
            };
            assert(after[i] == slots[from_i]);
            if j == last {
                assert(leads(slots, is_bid, replacement.unwrap().price, from_i));
            } else {
                let from_j = if j < at {
                    j
                } else {
                    j + 1
                };
                assert(after[j] == slots[from_j]);
                assert(from_i < from_j);
                assert(slots[from_j] is Some);
                assert(slots[from_i] is Some);
            }
        }
        assert forall|i: int, j: int|
            0 <= i < j < after.len() && after[i] is Some && after[j] is Some implies better(
            is_bid,
            after[i].unwrap().price,
            after[j].unwrap().price,
        ) by {
            let from_i = if i < at {
                i
            } else {
                i + 1
            };
            assert(after[i] == slots[from_i]);
            if j == last {
                assert(leads(slots, is_bid, replacement.unwrap().price, from_i));
            } else {
                let from_j = if j < at {
                    j
                } else {
                    j + 1
                };
                assert(after[j] == slots[from_j]);
                assert(from_i < from_j);
                assert(better(
                    is_bid,
                    slots[from_i].unwrap().price,
                    slots[from_j].unwrap().price,
                ));
            }
        }
    }
}

} // verus!
