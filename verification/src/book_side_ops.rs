//! The operations that every side of a book offers, and how they fail.

use vstd::prelude::*;
use crate::price_level::PriceLevel;

verus! {

/// Whether an addition met a price that was already in the book.
#[derive(Clone, Copy, Debug, PartialEq, Eq, Structural)]
pub enum FoundLevelType {
    New,
    Existing,
}

/// Whether a deletion emptied its price level.
#[derive(Clone, Copy, Debug, PartialEq, Eq, Structural)]
pub enum DeleteLevelType {
    Deleted,
    QuantityDecreased,
}

/// A failure to find a price level.
#[derive(Clone, Copy, Debug, PartialEq, Eq, Structural)]
pub enum LevelError {
    /// The side holds no quantity at the price.
    LevelNotFound,
}

/// A failure to change the quantity at a price.
#[derive(Clone, Copy, Debug, PartialEq, Eq, Structural)]
pub enum PricePointMutationOpsError {
    /// The price level could not be found.
    LevelError(LevelError),
    /// More quantity was to be taken than the level holds.
    QtyExceedsAvailable,
}

/// The quantity that `qtys` holds at `price`: zero for a price it does not hold.
pub open spec fn qty_at(qtys: Map<i64, i64>, price: i64) -> int {
    if qtys.contains_key(price) {
        qtys[price] as int
    } else {
        0
    }
}

/// Every quantity in `qtys` is strictly positive.
pub open spec fn all_positive(qtys: Map<i64, i64>) -> bool {
    forall|price: i64| qtys.contains_key(price) ==> qtys[price] > 0
}

/// The quantities after `qty` has been added at `price`.
pub open spec fn after_add(qtys: Map<i64, i64>, price: i64, qty: int) -> Map<i64, i64> {
    qtys.insert(price, (qty_at(qtys, price) + qty) as i64)
}

/// The outcome of taking `qty` from `price`: the error for a price that is not
/// held or that holds less than `qty`, else the remaining quantities, without
/// the price if nothing remains at it.
pub open spec fn after_delete(qtys: Map<i64, i64>, price: i64, qty: int) -> Result<
    Map<i64, i64>,
    PricePointMutationOpsError,
> {
    if !qtys.contains_key(price) {
        Err(PricePointMutationOpsError::LevelError(LevelError::LevelNotFound))
    } else if qty > qtys[price] {
        Err(PricePointMutationOpsError::QtyExceedsAvailable)
    } else if qty == qtys[price] {
        Ok(qtys.remove(price))
    } else {
        Ok(qtys.insert(price, (qtys[price] - qty) as i64))
    }
}

/// The outcome of taking `prev_qty` from `prev_price` and then adding `qty` at
/// `price`: the error of the deletion, with nothing added, if that fails.
pub open spec fn after_modify(
    qtys: Map<i64, i64>,
    price: i64,
    qty: int,
    prev_price: i64,
    prev_qty: int,
) -> Result<Map<i64, i64>, PricePointMutationOpsError> {
    match after_delete(qtys, prev_price, prev_qty) {
        Ok(remaining) => Ok(after_add(remaining, price, qty)),
        Err(error) => Err(error),
    }
}

/// What an addition reports: whether the price was held before, and the level
/// with its new total.
pub open spec fn add_report(qtys: Map<i64, i64>, price: i64, qty: int) -> (
    FoundLevelType,
    PriceLevel,
) {
    (
        if qtys.contains_key(price) {
            FoundLevelType::Existing
        } else {
            FoundLevelType::New
        },
        PriceLevel { price, qty: (qty_at(qtys, price) + qty) as i64 },
    )
}

/// What a deletion that succeeds reports: whether the level is gone, and the
/// level with what remains at it.
pub open spec fn delete_report(qtys: Map<i64, i64>, price: i64, qty: int) -> (
    DeleteLevelType,
    PriceLevel,
) {
    (
        if qty == qty_at(qtys, price) {
            DeleteLevelType::Deleted
        } else {
            DeleteLevelType::QuantityDecreased
        },
        PriceLevel { price, qty: (qty_at(qtys, price) - qty) as i64 },
    )
}

/// Changes to the quantity at a price of one side of a book.
pub trait PricePointMutationOps {
    /// The side is in a valid state.
    spec fn wf(&self) -> bool;

    /// Whether this is the bid side, where the highest price is best.
    spec fn bid_side(&self) -> bool;

    /// The quantity held at each price.
    spec fn qtys(&self) -> Map<i64, i64>;

    /// A valid side holds finitely many prices, each with a strictly positive
    /// quantity.
    proof fn lemma_wf_qtys(&self)
        requires
            self.wf(),
        ensures
            self.qtys().dom().finite(),
            all_positive(self.qtys()),
    ;

    /// Adds `qty` at `price`, opening the level if the side does not hold it.
    /// Returns whether the level was there before, and the level with its new
    /// total.
    fn add_qty(&mut self, price: i64, qty: i64) -> (added: (FoundLevelType, PriceLevel))
        requires
            old(self).wf(),
            qty > 0,
            qty_at(old(self).qtys(), price) + qty <= i64::MAX,
        ensures
            final(self).wf(),
            final(self).bid_side() == old(self).bid_side(),
            final(self).qtys() == after_add(old(self).qtys(), price, qty as int),
            all_positive(final(self).qtys()),
            added == add_report(old(self).qtys(), price, qty as int),
    ;

    /// Takes `prev_qty` from `prev_price` and then adds `qty` at `price`. If
    /// the deletion fails nothing is added, the side is left as it was, and
    /// the failure is returned.
    fn modify_qty(&mut self, price: i64, qty: i64, prev_price: i64, prev_qty: i64) -> (modified:
        Result<(FoundLevelType, PriceLevel), PricePointMutationOpsError>)
        requires
            old(self).wf(),
            qty > 0,
            prev_qty > 0,
            after_delete(old(self).qtys(), prev_price, prev_qty as int) matches Ok(remaining)
                ==> qty_at(remaining, price) + qty <= i64::MAX,
        ensures
            final(self).wf(),
            final(self).bid_side() == old(self).bid_side(),
            all_positive(final(self).qtys()),
            price == prev_price && qty == prev_qty ==> final(self).qtys() == old(self).qtys(),
            match after_delete(old(self).qtys(), prev_price, prev_qty as int) {
                Ok(remaining) => final(self).qtys() == after_add(remaining, price, qty as int)
                    && modified == Ok::<(FoundLevelType, PriceLevel), PricePointMutationOpsError>(
                    add_report(remaining, price, qty as int),
                ),
                Err(error) => final(self).qtys() == old(self).qtys() && modified == Err::<
                    (FoundLevelType, PriceLevel),
                    PricePointMutationOpsError,
                >(error),
            },
    {
        proof {
            self.lemma_wf_qtys();
            lemma_modify_to_self(self.qtys(), prev_price, prev_qty as int);
        }
        match self.delete_qty(prev_price, prev_qty) {
            Ok(_) => Ok(self.add_qty(price, qty)),
            Err(error) => Err(error),
        }
    }

    /// Takes `qty` from `price`. Fails, leaving the side as it was, if the
    /// side holds nothing at `price` or less than `qty`. A level from which
    /// everything is taken leaves the side.
    fn delete_qty(&mut self, price: i64, qty: i64) -> (deleted: Result<
        (DeleteLevelType, PriceLevel),
        PricePointMutationOpsError,
    >)
        requires
            old(self).wf(),
            qty > 0,
        ensures
            final(self).wf(),
            final(self).bid_side() == old(self).bid_side(),
            all_positive(final(self).qtys()),
            old(self).qtys().contains_key(price) && qty == old(self).qtys()[price] ==> deleted
                is Ok && !final(self).qtys().contains_key(price),
            match after_delete(old(self).qtys(), price, qty as int) {
                Ok(remaining) => final(self).qtys() == remaining && deleted == Ok::<
                    (DeleteLevelType, PriceLevel),
                    PricePointMutationOpsError,
                >(delete_report(old(self).qtys(), price, qty as int)),
                Err(error) => final(self).qtys() == old(self).qtys() && deleted == Err::<
                    (DeleteLevelType, PriceLevel),
                    PricePointMutationOpsError,
                >(error),
            },
    ;
}

/// The quantities after the quantity at `price` has been set to `qty`: a
/// price set to zero is not held any more.
pub open spec fn after_set(qtys: Map<i64, i64>, price: i64, qty: i64) -> Map<i64, i64> {
    if qty == 0 {
        qtys.remove(price)
    } else {
        qtys.insert(price, qty)
    }
}

/// Setting the quantity at a price of one side of a book outright.
pub trait PricePointSummaryOps: PricePointMutationOps {
    /// The quantity held at `price`: zero where the side holds none.
    fn qty_at_price(&self, price: i64) -> (held: i64)
        requires
            self.wf(),
        ensures
            held == qty_at(self.qtys(), price),
    ;

    /// Sets the quantity at `price` to `qty`, by adding what is missing or
    /// taking what is too much. Setting it to zero removes the level.
    fn set_level(&mut self, price: i64, qty: i64)
        requires
            old(self).wf(),
            qty >= 0,
        ensures
            final(self).wf(),
            final(self).bid_side() == old(self).bid_side(),
            final(self).qtys() == after_set(old(self).qtys(), price, qty),
            all_positive(final(self).qtys()),
    {
        proof {
            self.lemma_wf_qtys();
        }
        let held = self.qty_at_price(price);
        if qty > held {
            self.add_qty(price, qty - held);
            assert(self.qtys() =~= after_set(old(self).qtys(), price, qty));
        } else if qty < held {
            let _ = self.delete_qty(price, held - qty);
            assert(self.qtys() =~= after_set(old(self).qtys(), price, qty));
        } else {
            assert(self.qtys() =~= after_set(old(self).qtys(), price, qty));
        }
    }
}

/// Additions keep every quantity strictly positive.
pub proof fn lemma_add_keeps_positive(qtys: Map<i64, i64>, price: i64, qty: int)
    requires
        all_positive(qtys),
        qty > 0,
        qty_at(qtys, price) + qty <= i64::MAX,
    ensures
        all_positive(after_add(qtys, price, qty)),
{
}

/// Taking from a level exactly what was just added to it brings the side back
/// to what it was.
pub proof fn lemma_delete_undoes_add(qtys: Map<i64, i64>, price: i64, qty: int)
    requires
        all_positive(qtys),
        qty > 0,
        qty_at(qtys, price) + qty <= i64::MAX,
    ensures
        after_delete(after_add(qtys, price, qty), price, qty) == Ok::<
            Map<i64, i64>,
            PricePointMutationOpsError,
        >(qtys),
{
    match after_delete(after_add(qtys, price, qty), price, qty) {
        Ok(back) => {
            assert(back =~= qtys);
        },
        Err(_) => {},
    }
}

/// Replacing a level by itself changes nothing: where the quantity can be
/// taken from the price, adding it again restores the side.
pub proof fn lemma_modify_to_self(qtys: Map<i64, i64>, price: i64, qty: int)
    requires
        all_positive(qtys),
        qty > 0,
    ensures
        after_modify(qtys, price, qty, price, qty) matches Ok(back) ==> back == qtys,
{
    match after_modify(qtys, price, qty, price, qty) {
        Ok(back) => {
            assert(back =~= qtys);
        },
        Err(_) => {},
    }
}

/// Taking from a level all that it holds removes the level.
pub proof fn lemma_delete_exact(qtys: Map<i64, i64>, price: i64)
    requires
        qtys.contains_key(price),
    ensures
        after_delete(qtys, price, qtys[price] as int) == Ok::<
            Map<i64, i64>,
            PricePointMutationOpsError,
        >(qtys.remove(price)),
        delete_report(qtys, price, qtys[price] as int) == (
            DeleteLevelType::Deleted,
            PriceLevel { price, qty: 0 },
        ),
{
}

} // verus!
