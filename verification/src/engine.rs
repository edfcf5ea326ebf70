//! One symbol's market state: the scaler, the sequencing state and the book,
//! moved forward one event at a time.
//!
//! The caller owns the transport. It hands each delta to
//! [`MarketState::on_delta`] and each freshly fetched snapshot to
//! [`MarketState::install_snapshot`], and is told after each whether to go on
//! or to fetch a new snapshot.
use crate::decimal::Decimal;
use crate::feed::{DepthUpdate, Snapshot};
use crate::ladder::best_levels;
use crate::orderbook::{BookView, OrderBook};
use crate::scaler::{value_of, ScaleError, Scaler, ScalerView};
use crate::sync::{lemma_buffer_stays_ahead, SyncState, SyncView, Verdict};
use vstd::prelude::*;

verus! {

/// What the caller is to do after an event.
#[derive(Clone, Copy, Debug, PartialEq, Eq)]
pub enum Step {
    /// The book has taken in a delta.
    Updated,
    /// The book is as it was.
    Unchanged,
    /// Updates were missed: fetch a snapshot and install it.
    Resync,
}

/// A [`MarketState`] as plain values.
pub struct MarketView {
    pub scaler: ScalerView,
    pub sync: SyncView,
    pub book: BookView,
}

impl MarketView {
    /// The level changes of `update` in ticks, where all of them have ticks.
    pub open spec fn changes(self, update: DepthUpdate) -> Option<
        (Seq<(i64, i64)>, Seq<(i64, i64)>),
    > {
        match (
            self.scaler.levels_ticks(update.bid_changes@),
            self.scaler.levels_ticks(update.ask_changes@),
        ) {
            (Some(bids), Some(asks)) => Some((bids, asks)),
            _ => None,
        }
    }

    /// The state after `update` has been handled. An admitted delta moves
    /// watermark and book together; one whose levels have no ticks is
    /// refused before it touches either; any other delta moves the
    /// sequencing state alone.
    pub open spec fn after_delta(self, update: DepthUpdate) -> MarketView {
        match self.sync.classify(update.first_update_id, update.final_update_id) {
            Verdict::Admit => match self.changes(update) {
                Some((bids, asks)) => MarketView {
                    sync: self.sync.step(update),
                    book: self.book.with_changes(bids, asks),
                    ..self
                },
                None => self,
            },
            _ => MarketView { sync: self.sync.step(update), ..self },
        }
    }

    /// What the caller is told about `update`.
    pub open spec fn delta_result(self, update: DepthUpdate) -> Result<Step, ScaleError> {
        match self.sync.classify(update.first_update_id, update.final_update_id) {
            Verdict::Admit => match self.changes(update) {
                Some(_) => Ok(Step::Updated),
                None => Err(ScaleError::UnscalableValue),
            },
            Verdict::Gap => Ok(Step::Resync),
            Verdict::Buffer | Verdict::Stale => Ok(Step::Unchanged),
        }
    }

    /// The state after `deltas` have been handled in order, and what the
    /// caller is told. The run ends early at the first delta that is refused
    /// or reveals a gap. Otherwise the book counts as updated when at least
    /// one delta was admitted.
    pub open spec fn replay(self, deltas: Seq<DepthUpdate>) -> (MarketView, Result<
        Step,
        ScaleError,
    >)
        decreases deltas.len(),
    {
        if deltas.len() == 0 {
            (self, Ok(Step::Unchanged))
        } else {
            let (state, so_far) = self.replay(deltas.drop_last());
            match so_far {
                Err(_) | Ok(Step::Resync) => (state, so_far),
                Ok(earlier) => (
                    state.after_delta(deltas.last()),
                    match state.delta_result(deltas.last()) {
                        Ok(Step::Unchanged) => Ok(earlier),
                        other => other,
                    },
                ),
            }
        }
    }

    /// The state right after a snapshot with these levels in ticks has
    /// replaced book and watermark, before anything is replayed.
    pub open spec fn reset(
        self,
        last_update_id: u64,
        bids: Seq<(i64, i64)>,
        asks: Seq<(i64, i64)>,
    ) -> MarketView {
        MarketView {
            scaler: self.scaler,
            sync: SyncView {
                watermark: Some(last_update_id),
                buffer: Seq::empty(),
                desynchronized: false,
            },
            book: BookView::from_levels(bids, asks),
        }
    }

    /// The state after `snapshot` has been installed and the deltas held
    /// back have been replayed against it, and what the caller is told. A
    /// snapshot whose levels have no ticks is refused and changes nothing.
    pub open spec fn after_snapshot(self, snapshot: Snapshot) -> (MarketView, Result<
        Step,
        ScaleError,
    >) {
        match (
            self.scaler.levels_ticks(snapshot.bids@),
            self.scaler.levels_ticks(snapshot.asks@),
        ) {
            (Some(bids), Some(asks)) => {
                let (state, told) = self.reset(snapshot.last_update_id, bids, asks).replay(
                    self.sync.buffer,
                );
                (
                    state,
                    match told {
                        Ok(Step::Unchanged) => Ok(Step::Updated),
                        other => other,
                    },
                )
            },
            _ => (self, Err(ScaleError::UnscalableValue)),
        }
    }
}

/// A run that has ended early stays as it is, whatever follows.
pub proof fn lemma_replay_ends_early(state: MarketView, deltas: Seq<DepthUpdate>, k: int)
    requires
        0 <= k <= deltas.len(),
        !(state.replay(deltas.take(k)).1 matches Ok(step) && step != Step::Resync),
    ensures
        state.replay(deltas) == state.replay(deltas.take(k)),
    decreases deltas.len() - k,
{
    if k == deltas.len() {
        assert(deltas.take(k) =~= deltas);
    } else {
        assert(deltas.take(k + 1).drop_last() =~= deltas.take(k));
        lemma_replay_ends_early(state, deltas, k + 1);
    }
}

/// A snapshot replaces the book whole: with nothing held back, the book
/// after it holds the snapshot's levels and nothing of the book before.
pub proof fn lemma_snapshot_replaces_book(state: MarketView, snapshot: Snapshot)
    requires
        state.sync.buffer.len() == 0,
    ensures
        match (
            state.scaler.levels_ticks(snapshot.bids@),
            state.scaler.levels_ticks(snapshot.asks@),
        ) {
            (Some(bids), Some(asks)) => {
                &&& state.after_snapshot(snapshot).0.book == BookView::from_levels(bids, asks)
                &&& state.after_snapshot(snapshot).0.sync.watermark == Some(
                    snapshot.last_update_id,
                )
                &&& state.after_snapshot(snapshot).1 == Ok::<Step, ScaleError>(Step::Updated)
            },
            _ => state.after_snapshot(snapshot).0 == state,
        },
{
}

/// A market never holds back a stale delta: what holds of a fresh market
/// holds after every delta, every replay and every snapshot.
pub proof fn lemma_market_buffer_stays_ahead(
    state: MarketView,
    update: DepthUpdate,
    deltas: Seq<DepthUpdate>,
    snapshot: Snapshot,
)
    requires
        state.sync.buffer_ahead(),
    ensures
        state.after_delta(update).sync.buffer_ahead(),
        state.replay(deltas).0.sync.buffer_ahead(),
        state.after_snapshot(snapshot).0.sync.buffer_ahead(),
    decreases deltas.len(), 1int,
{
    lemma_buffer_stays_ahead(state.sync, update, 0);
    if deltas.len() > 0 {
        let reached = state.replay(deltas.drop_last()).0;
        lemma_market_buffer_stays_ahead(state, update, deltas.drop_last(), snapshot);
        lemma_buffer_stays_ahead(reached.sync, deltas.last(), 0);
    }
    match (
        state.scaler.levels_ticks(snapshot.bids@),
        state.scaler.levels_ticks(snapshot.asks@),
    ) {
        (Some(bids), Some(asks)) => {
            lemma_replay_keeps_buffer_ahead(
                state.reset(snapshot.last_update_id, bids, asks),
                state.sync.buffer,
            );
        },
        _ => {},
    }
}

/// A replay keeps every delta held back ahead of the watermark.
proof fn lemma_replay_keeps_buffer_ahead(state: MarketView, deltas: Seq<DepthUpdate>)
    requires
        state.sync.buffer_ahead(),
    ensures
        state.replay(deltas).0.sync.buffer_ahead(),
    decreases deltas.len(),
{
    if deltas.len() > 0 {
        lemma_replay_keeps_buffer_ahead(state, deltas.drop_last());
        lemma_buffer_stays_ahead(state.replay(deltas.drop_last()).0.sync, deltas.last(), 0);
    }
}

/// Once a gap has been seen nothing moves until a snapshot is installed.
pub proof fn lemma_desynchronized_waits(state: MarketView, update: DepthUpdate)
    requires
        state.sync.desynchronized,
    ensures
        state.after_delta(update) == state,
        state.delta_result(update) == Ok::<Step, ScaleError>(Step::Resync),
{
}

/// The scaler, the sequencing state and the book of one symbol.
#[derive(Clone, Debug)]
pub struct MarketState {
    scaler: Scaler,
    sync: SyncState,
    book: OrderBook,
}

impl View for MarketState {
    type V = MarketView;

    closed spec fn view(&self) -> MarketView {
        MarketView { scaler: self.scaler@, sync: self.sync@, book: self.book@ }
    }
}

impl MarketState {
    /// A state with an empty book and no watermark: deltas are held back
    /// until a snapshot is installed.
    pub fn new(scaler: Scaler) -> (state: MarketState)
        ensures
            state@ == (MarketView {
                scaler: scaler@,
                sync: SyncView { watermark: None, buffer: Seq::empty(), desynchronized: false },
                book: BookView::empty(),
            }),
    {
        MarketState { scaler, sync: SyncState::new(), book: OrderBook::new() }
    }

    pub fn scaler(&self) -> (scaler: &Scaler)
        ensures
            scaler@ == self@.scaler,
    {
        &self.scaler
    }

    pub fn sync(&self) -> (sync: &SyncState)
        ensures
            sync@ == self@.sync,
    {
        &self.sync
    }

    pub fn book(&self) -> (book: &OrderBook)
        ensures
            book@ == self@.book,
    {
        &self.book
    }

    /// Handles one delta of the stream: see [`MarketView::after_delta`].
    pub fn on_delta(&mut self, update: DepthUpdate) -> (told: Result<Step, ScaleError>)
        ensures
            final(self)@ == old(self)@.after_delta(update),
            told == old(self)@.delta_result(update),
    {
        match self.sync.classify(&update) {
            Verdict::Admit => {
                match self.book.apply_update(&update, &self.scaler) {
                    Ok(()) => {
                        let _ = self.sync.process_delta(update);
                        Ok(Step::Updated)
                    },
                    Err(e) => Err(e),
                }
            },
            Verdict::Gap => {
                let _ = self.sync.process_delta(update);
                Ok(Step::Resync)
            },
            Verdict::Buffer | Verdict::Stale => {
                let _ = self.sync.process_delta(update);
                Ok(Step::Unchanged)
            },
        }
    }

    /// Handles `deltas` in order: see [`MarketView::replay`].
    pub fn replay(&mut self, deltas: Vec<DepthUpdate>) -> (told: Result<Step, ScaleError>)
        ensures
            (final(self)@, told) == old(self)@.replay(deltas@),
    {
        let ghost before = self@;
        let ghost all = deltas@;
        let mut pending = deltas;
        let mut told: Result<Step, ScaleError> = Ok(Step::Unchanged);
        let mut open = true;
        let mut taken: usize = 0;
        let total = pending.len();
        // The deltas are taken from the back of the reversed run.
        reverse(&mut pending);
        while open && taken < total
            invariant
                taken <= total,
                total == all.len(),
                pending.len() == total - taken,
                forall|j: int| 0 <= j < pending.len() ==> pending[j] == all[total - 1 - j],
                open ==> (told matches Ok(step) && step != Step::Resync),
                open ==> (self@, told) == before.replay(all.take(taken as int)),
                !open ==> (self@, told) == before.replay(all),
            decreases total - taken,
        {
            match pending.pop() {
                None => {
                    open = false;
                },
                Some(update) => {
                    let ghost reached = self@;
                    let answer = self.on_delta(update);
                    proof {
                        let prefix = all.take(taken + 1);
                        assert(prefix.drop_last() =~= all.take(taken as int));
                        assert(prefix.last() == update);
                        assert(before.replay(prefix).0 == reached.after_delta(update));
                    }
                    match answer {
                        Ok(Step::Unchanged) => {},
                        Ok(Step::Updated) => {
                            told = answer;
                        },
                        _ => {
                            told = answer;
                            open = false;
                            proof {
                                lemma_replay_ends_early(before, all, taken + 1);
                            }
                        },
                    }
                    taken = taken + 1;
                },
            }
        }
        assert(open ==> all.take(taken as int) =~= all);
        told
    }

    /// Replaces book and watermark by what `snapshot` says, then replays the
    /// deltas that were held back: see [`MarketView::after_snapshot`].
    pub fn install_snapshot(&mut self, snapshot: Snapshot) -> (told: Result<Step, ScaleError>)
        ensures
            (final(self)@, told) == old(self)@.after_snapshot(snapshot),
    {
        let last_update_id = snapshot.last_update_id;
        let book = match OrderBook::from_snapshot(snapshot, &self.scaler) {
            Ok(book) => book,
            Err(e) => {
                return Err(e);
            },
        };
        let held = self.sync.drain_buffer();
        let mut sync = SyncState::new();
        sync.set_last_update_id(last_update_id);
        self.sync = sync;
        self.book = book;
        match self.replay(held) {
            Ok(Step::Unchanged) => Ok(Step::Updated),
            other => other,
        }
    }

    /// Up to `n` levels of each side, best price first, in decimal units.
    /// Fails where a level does not fit a decimal.
    pub fn top_n_depth(&self, n: usize) -> (depth: Result<
        (Vec<(Decimal, Decimal)>, Vec<(Decimal, Decimal)>),
        ScaleError,
    >)
        ensures
            exists|bids: Seq<(i64, i64)>, asks: Seq<(i64, i64)>| #[trigger]
                is_depth_of(self@, n as nat, bids, asks, depth),
    {
        let (bid_ticks, ask_ticks) = self.book.top_n_depth(n);
        let bids = match self.scaler.ticks_to_levels(&bid_ticks) {
            Ok(levels) => levels,
            Err(e) => {
                let depth = Err(e);
                assert(is_depth_of(self@, n as nat, bid_ticks@, ask_ticks@, depth));
                return depth;
            },
        };
        let asks = match self.scaler.ticks_to_levels(&ask_ticks) {
            Ok(levels) => levels,
            Err(e) => {
                let depth = Err(e);
                assert(is_depth_of(self@, n as nat, bid_ticks@, ask_ticks@, depth));
                return depth;
            },
        };
        let depth = Ok((bids, asks));
        assert(is_depth_of(self@, n as nat, bid_ticks@, ask_ticks@, depth));
        depth
    }
}

/// `depth` is what a depth query of `n` levels is to give for `state`,
/// where `bids` and `asks` are the best levels of the book in ticks: the
/// same levels in decimal units, or a failure where one of them does not
/// fit a decimal.
pub open spec fn is_depth_of(
    state: MarketView,
    n: nat,
    bids: Seq<(i64, i64)>,
    asks: Seq<(i64, i64)>,
    depth: Result<(Vec<(Decimal, Decimal)>, Vec<(Decimal, Decimal)>), ScaleError>,
) -> bool {
    &&& best_levels(state.book.bids, n, bids, true)
    &&& best_levels(state.book.asks, n, asks, false)
    &&& depth is Ok <==> (forall|i: int|
        0 <= i < bids.len() ==> state.scaler.level_fits(#[trigger] bids[i])) && (forall|i: int|
        0 <= i < asks.len() ==> state.scaler.level_fits(#[trigger] asks[i]))
    &&& depth matches Ok(levels) ==> is_levels_of(state.scaler, bids, levels.0@) && is_levels_of(
        state.scaler,
        asks,
        levels.1@,
    )
    &&& depth matches Err(e) ==> e == ScaleError::UnscalableValue
}

/// `levels` are the tick levels `ticks`, one for one, in decimal units.
pub open spec fn is_levels_of(
    scaler: ScalerView,
    ticks: Seq<(i64, i64)>,
    levels: Seq<(Decimal, Decimal)>,
) -> bool {
    &&& levels.len() == ticks.len()
    &&& forall|i: int|
        0 <= i < levels.len() ==> (#[trigger] levels[i]).0@ == value_of(
            ticks[i].0 as int,
            scaler.tick_size,
        ) && levels[i].1@ == value_of(ticks[i].1 as int, scaler.step_size)
}

/// Turns the run of deltas back to front.
fn reverse(deltas: &mut Vec<DepthUpdate>)
    ensures
        final(deltas).len() == old(deltas).len(),
        forall|j: int|
            0 <= j < old(deltas).len() ==> final(deltas)[j] == old(deltas)[old(deltas).len() - 1
                - j],
{
    let ghost before = deltas@;
    let mut source: Vec<DepthUpdate> = Vec::new();
    core::mem::swap(deltas, &mut source);
    while source.len() > 0
        invariant
            source.len() + deltas.len() == before.len(),
            forall|j: int| 0 <= j < source.len() ==> source[j] == before[j],
            forall|j: int| 0 <= j < deltas.len() ==> deltas[j] == before[before.len() - 1 - j],
        decreases source.len(),
    {
        match source.pop() {
            Some(update) => deltas.push(update),
            None => {},
        }
    }
}

} // verus!
