//! The order book: a bid side and an ask side of price levels in ticks.
use crate::feed::{DepthUpdate, Snapshot};
use crate::ladder::{
    all_levels_filled, apply_changes, best_levels, has_price, lemma_absent_from_best,
    lemma_loaded_levels, lemma_set_level_effect, lemma_set_level_idempotent, load_levels,
    set_level, Ladder,
};
use crate::scaler::{ScaleError, Scaler};
use vstd::prelude::*;

verus! {

/// A side of the book.
#[derive(Clone, Copy, Debug, PartialEq, Eq)]
pub enum Side {
    Bid,
    Ask,
}

/// The book as plain values: for each side, the quantity at each price.
pub struct BookView {
    pub bids: Map<i64, i64>,
    pub asks: Map<i64, i64>,
}

impl BookView {
    /// The book without levels.
    pub open spec fn empty() -> BookView {
        BookView { bids: Map::empty(), asks: Map::empty() }
    }

    pub open spec fn side(self, side: Side) -> Map<i64, i64> {
        match side {
            Side::Bid => self.bids,
            Side::Ask => self.asks,
        }
    }

    /// The book after one absolute level change on `side`.
    pub open spec fn with_level(self, side: Side, price: i64, qty: i64) -> BookView {
        match side {
            Side::Bid => BookView { bids: set_level(self.bids, price, qty), ..self },
            Side::Ask => BookView { asks: set_level(self.asks, price, qty), ..self },
        }
    }

    /// The book after the level changes of one delta, each side in order.
    pub open spec fn with_changes(
        self,
        bid_changes: Seq<(i64, i64)>,
        ask_changes: Seq<(i64, i64)>,
    ) -> BookView {
        BookView {
            bids: apply_changes(self.bids, bid_changes),
            asks: apply_changes(self.asks, ask_changes),
        }
    }

    /// The book that a snapshot with these levels gives.
    pub open spec fn from_levels(bids: Seq<(i64, i64)>, asks: Seq<(i64, i64)>) -> BookView {
        BookView {
            bids: load_levels(Map::empty(), bids),
            asks: load_levels(Map::empty(), asks),
        }
    }

    /// No price stands with a quantity of zero, on either side.
    pub open spec fn all_levels_filled(self) -> bool {
        all_levels_filled(self.bids) && all_levels_filled(self.asks)
    }
}

/// Level changes are absolute: the same change made twice in a row leaves
/// the book as the first one left it.
pub proof fn lemma_level_change_idempotent(book: BookView, side: Side, price: i64, qty: i64)
    ensures
        book.with_level(side, price, qty).with_level(side, price, qty) == book.with_level(
            side,
            price,
            qty,
        ),
{
    lemma_set_level_idempotent(book.side(side), price, qty);
}

/// A level change with a quantity of zero takes the price off its side, and
/// no depth query made of that book names the price on that side.
pub proof fn lemma_zero_removes(
    book: BookView,
    side: Side,
    price: i64,
    n: nat,
    depth: Seq<(i64, i64)>,
)
    requires
        best_levels(book.with_level(side, price, 0).side(side), n, depth, side is Bid),
    ensures
        !book.with_level(side, price, 0).side(side).contains_key(price),
        !has_price(depth, price),
{
    lemma_set_level_effect(book.side(side), price, 0);
    lemma_absent_from_best(book.with_level(side, price, 0).side(side), n, depth, side is Bid, price);
}

/// A book built from a snapshot holds what the snapshot names and nothing
/// else: a price stands on a side exactly when a level of that side names it
/// with a quantity other than zero.
pub proof fn lemma_snapshot_holds_only_its_levels(
    bids: Seq<(i64, i64)>,
    asks: Seq<(i64, i64)>,
    price: i64,
)
    ensures
        BookView::from_levels(bids, asks).bids.contains_key(price) <==> exists|i: int|
            0 <= i < bids.len() && (#[trigger] bids[i]).0 == price && bids[i].1 != 0,
        BookView::from_levels(bids, asks).asks.contains_key(price) <==> exists|i: int|
            0 <= i < asks.len() && (#[trigger] asks[i]).0 == price && asks[i].1 != 0,
        BookView::from_levels(bids, asks).all_levels_filled(),
{
    lemma_loaded_levels(bids, price);
    lemma_loaded_levels(asks, price);
}

/// Two price-ordered sides of levels, bids and asks.
#[derive(Clone, Debug)]
pub struct OrderBook {
    bids: Ladder,
    asks: Ladder,
}

impl View for OrderBook {
    type V = BookView;

    closed spec fn view(&self) -> BookView {
        BookView { bids: self.bids@, asks: self.asks@ }
    }
}

impl OrderBook {
    /// The book without levels.
    pub fn new() -> (book: OrderBook)
        ensures
            book@ == BookView::empty(),
    {
        OrderBook { bids: Ladder::new(), asks: Ladder::new() }
    }

    /// The book that `snapshot` describes. Every price and quantity is
    /// converted by `scaler`; levels with a quantity of zero are passed over.
    /// Fails where a level has no tick.
    pub fn from_snapshot(snapshot: Snapshot, scaler: &Scaler) -> (r: Result<OrderBook, ScaleError>)
        ensures
            match (scaler@.levels_ticks(snapshot.bids@), scaler@.levels_ticks(snapshot.asks@)) {
                (Some(bids), Some(asks)) => r matches Ok(book) && book@ == BookView::from_levels(
                    bids,
                    asks,
                ) && book@.all_levels_filled(),
                _ => r matches Err(e) && e == ScaleError::UnscalableValue,
            },
    {
        let bids = match scaler.levels_to_ticks(&snapshot.bids) {
            Ok(levels) => levels,
            Err(e) => {
                return Err(e);
            },
        };
        let asks = match scaler.levels_to_ticks(&snapshot.asks) {
            Ok(levels) => levels,
            Err(e) => {
                return Err(e);
            },
        };
        let mut book = OrderBook::new();
        book.bids.load(&bids);
        book.asks.load(&asks);
        proof {
            lemma_loaded_levels(bids@, 0);
            lemma_loaded_levels(asks@, 0);
        }
        Ok(book)
    }

    /// Applies the level changes of `update`, converted by `scaler`. Each
    /// change is absolute: a quantity of zero removes the price, any other
    /// replaces what stood there. Fails, with the book unchanged, where a
    /// change has no tick.
    pub fn apply_update(&mut self, update: &DepthUpdate, scaler: &Scaler) -> (r: Result<
        (),
        ScaleError,
    >)
        ensures
            match (
                scaler@.levels_ticks(update.bid_changes@),
                scaler@.levels_ticks(update.ask_changes@),
            ) {
                (Some(bids), Some(asks)) => r is Ok && final(self)@ == old(self)@.with_changes(
                    bids,
                    asks,
                ),
                _ => r matches Err(e) && e == ScaleError::UnscalableValue && final(self)@ == old(
                    self,
                )@,
            },
            final(self)@.all_levels_filled(),
    {
        let bids = match scaler.levels_to_ticks(&update.bid_changes) {
            Ok(levels) => levels,
            Err(e) => {
                proof {
                    use_type_invariant(&self.bids);
                    use_type_invariant(&self.asks);
                    self.lemma_levels_filled();
                }
                return Err(e);
            },
        };
        let asks = match scaler.levels_to_ticks(&update.ask_changes) {
            Ok(levels) => levels,
            Err(e) => {
                proof {
                    use_type_invariant(&self.bids);
                    use_type_invariant(&self.asks);
                    self.lemma_levels_filled();
                }
                return Err(e);
            },
        };
        self.apply_levels(&bids, &asks);
        Ok(())
    }

    /// Applies level changes given in ticks, each side in order.
    pub fn apply_levels(&mut self, bid_changes: &Vec<(i64, i64)>, ask_changes: &Vec<(i64, i64)>)
        ensures
            final(self)@ == old(self)@.with_changes(bid_changes@, ask_changes@),
            final(self)@.all_levels_filled(),
    {
        self.bids.apply(bid_changes);
        self.asks.apply(ask_changes);
        proof {
            use_type_invariant(&self.bids);
            use_type_invariant(&self.asks);
            self.lemma_levels_filled();
        }
    }

    /// One absolute level change in ticks.
    pub fn apply_level(&mut self, side: Side, price: i64, qty: i64)
        ensures
            final(self)@ == old(self)@.with_level(side, price, qty),
            final(self)@.all_levels_filled(),
    {
        match side {
            Side::Bid => self.bids.set(price, qty),
            Side::Ask => self.asks.set(price, qty),
        }
        proof {
            use_type_invariant(&self.bids);
            use_type_invariant(&self.asks);
            self.lemma_levels_filled();
        }
    }

    /// Up to `n` levels of each side, best price first: bids from the highest
    /// price down, asks from the lowest price up. A side with fewer than `n`
    /// levels gives all it has.
    pub fn top_n_depth(&self, n: usize) -> (depth: (Vec<(i64, i64)>, Vec<(i64, i64)>))
        ensures
            best_levels(self@.bids, n as nat, depth.0@, true),
            best_levels(self@.asks, n as nat, depth.1@, false),
    {
        (self.bids.highest(n), self.asks.lowest(n))
    }

    /// The quantity at `price` on `side`, where the book holds that price.
    pub fn quantity_at(&self, side: Side, price: i64) -> (qty: Option<i64>)
        ensures
            qty == (if self@.side(side).contains_key(price) {
                Some(self@.side(side)[price])
            } else {
                None
            }),
            qty matches Some(q) ==> q != 0,
    {
        match side {
            Side::Bid => self.bids.get(price),
            Side::Ask => self.asks.get(price),
        }
    }

    /// How many price levels `side` has.
    pub fn level_count(&self, side: Side) -> (n: usize)
        ensures
            self@.side(side).dom().finite(),
            n == self@.side(side).dom().len(),
    {
        match side {
            Side::Bid => self.bids.len(),
            Side::Ask => self.asks.len(),
        }
    }

    /// Ordered sides hold no price with a quantity of zero.
    proof fn lemma_levels_filled(self)
        requires
            self.bids.ordered(),
            self.asks.ordered(),
        ensures
            self@.all_levels_filled(),
    {
        self.bids.lemma_levels_filled();
        self.asks.lemma_levels_filled();
    }
}

} // verus!
