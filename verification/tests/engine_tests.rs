use orderbook_engine::decimal::Decimal;
use orderbook_engine::engine::{MarketState, Step};
use orderbook_engine::feed::{DepthUpdate, Snapshot};
use orderbook_engine::orderbook::{OrderBook, Side};
use orderbook_engine::scaler::{Policy, ScaleError, Scaler};
use orderbook_engine::sync::{Outcome, SyncPhase, SyncState};
use orderbook_engine::tui::{App, Key, KeyKind, POLL_INTERVAL_MS};
use std::sync::Arc;

fn dec(mantissa: i64, scale: u8) -> Decimal {
    Decimal::new(mantissa, scale).unwrap()
}

fn cents() -> Scaler {
    Scaler::new(dec(1, 2), dec(1, 4)).unwrap()
}

fn bid_delta(first_update_id: u64, final_update_id: u64, price: Decimal, qty: Decimal) -> DepthUpdate {
    DepthUpdate {
        first_update_id,
        final_update_id,
        bid_changes: vec![(price, qty)],
        ask_changes: vec![],
    }
}

fn one_bid_snapshot() -> Snapshot {
    Snapshot { last_update_id: 100, bids: vec![(dec(1000, 2), dec(10, 1))], asks: vec![] }
}

#[test]
fn snapshot_then_delta_removes_the_only_bid() {
    let scaler = cents();
    let snapshot = one_bid_snapshot();
    let mut sync = SyncState::new();
    sync.set_last_update_id(snapshot.last_update_id);
    let mut book = OrderBook::from_snapshot(snapshot, &scaler).ok().unwrap();
    assert_eq!(book.top_n_depth(5), (vec![(1000, 10_000)], vec![]));
    assert_eq!(book.level_count(Side::Bid), 1);

    let delta = bid_delta(101, 101, dec(1000, 2), dec(0, 1));
    match sync.process_delta(delta) {
        Outcome::Applied(admitted) => {
            assert_eq!(book.apply_update(&admitted, &scaler), Ok(()));
        }
        other => panic!("the delta was not applied: {:?}", other),
    }
    assert_eq!(sync.last_update_id(), Some(101));
    assert_eq!(book.level_count(Side::Bid), 0);
    assert_eq!(book.top_n_depth(5), (vec![], vec![]));
}

#[test]
fn market_runs_the_same_scenario_in_one_piece() {
    let mut market = MarketState::new(cents());
    assert_eq!(market.install_snapshot(one_bid_snapshot()), Ok(Step::Updated));
    assert_eq!(market.book().top_n_depth(5), (vec![(1000, 10_000)], vec![]));
    assert_eq!(market.sync().last_update_id(), Some(100));
    assert_eq!(
        market.on_delta(bid_delta(101, 101, dec(1000, 2), dec(0, 1))),
        Ok(Step::Updated)
    );
    assert_eq!(market.book().top_n_depth(5), (vec![], vec![]));
    assert_eq!(market.sync().last_update_id(), Some(101));
}

#[test]
fn market_holds_deltas_back_until_a_snapshot_arrives() {
    let mut market = MarketState::new(cents());
    assert_eq!(market.on_delta(bid_delta(99, 100, dec(5, 0), dec(1, 0))), Ok(Step::Unchanged));
    assert_eq!(market.on_delta(bid_delta(101, 102, dec(6, 0), dec(2, 0))), Ok(Step::Unchanged));
    assert_eq!(market.on_delta(bid_delta(103, 103, dec(1000, 2), dec(0, 0))), Ok(Step::Unchanged));
    assert_eq!(market.sync().buffered(), 3);
    assert_eq!(market.book().top_n_depth(5), (vec![], vec![]));

    // The first held delta is stale against the snapshot, the others follow on.
    assert_eq!(market.install_snapshot(one_bid_snapshot()), Ok(Step::Updated));
    assert_eq!(market.sync().buffered(), 0);
    assert_eq!(market.sync().last_update_id(), Some(103));
    assert_eq!(market.book().top_n_depth(5), (vec![(600, 20_000)], vec![]));
}

#[test]
fn stale_delta_leaves_the_market_unchanged() {
    let mut market = MarketState::new(cents());
    market.install_snapshot(one_bid_snapshot()).unwrap();
    assert_eq!(market.on_delta(bid_delta(90, 99, dec(1000, 2), dec(0, 0))), Ok(Step::Unchanged));
    assert_eq!(market.book().top_n_depth(5), (vec![(1000, 10_000)], vec![]));
    assert_eq!(market.sync().last_update_id(), Some(100));
}

#[test]
fn gap_asks_for_a_resync_and_a_snapshot_heals_it() {
    let mut market = MarketState::new(cents());
    market.install_snapshot(one_bid_snapshot()).unwrap();
    assert_eq!(market.on_delta(bid_delta(102, 103, dec(7, 0), dec(1, 0))), Ok(Step::Resync));
    assert_eq!(market.sync().phase(), SyncPhase::Desynchronized);
    assert_eq!(market.book().top_n_depth(5), (vec![(1000, 10_000)], vec![]));
    assert_eq!(market.on_delta(bid_delta(101, 101, dec(7, 0), dec(1, 0))), Ok(Step::Resync));
    assert_eq!(market.book().top_n_depth(5), (vec![(1000, 10_000)], vec![]));

    let fresh = Snapshot {
        last_update_id: 200,
        bids: vec![(dec(2000, 2), dec(3, 0))],
        asks: vec![(dec(2001, 2), dec(4, 0))],
    };
    assert_eq!(market.install_snapshot(fresh), Ok(Step::Updated));
    assert_eq!(market.sync().phase(), SyncPhase::Synchronized);
    assert_eq!(market.sync().last_update_id(), Some(200));
    assert_eq!(market.book().top_n_depth(5), (vec![(2000, 30_000)], vec![(2001, 40_000)]));
    assert_eq!(market.book().quantity_at(Side::Bid, 1000), None);
}

#[test]
fn unscalable_delta_is_refused_before_it_moves_anything() {
    let scaler = Scaler::with_policy(dec(1, 2), dec(1, 4), Policy::exact()).unwrap();
    let mut market = MarketState::new(scaler);
    market.install_snapshot(one_bid_snapshot()).unwrap();
    assert_eq!(
        market.on_delta(bid_delta(101, 101, dec(10_001, 3), dec(1, 0))),
        Err(ScaleError::UnscalableValue)
    );
    assert_eq!(market.sync().last_update_id(), Some(100));
    assert_eq!(market.book().top_n_depth(5), (vec![(1000, 10_000)], vec![]));
    // A stale delta is dropped without a look at its levels.
    assert_eq!(market.on_delta(bid_delta(1, 2, dec(10_001, 3), dec(1, 0))), Ok(Step::Unchanged));
    // The refused delta is lost, so the one after it reveals the gap.
    assert_eq!(market.on_delta(bid_delta(102, 102, dec(1000, 2), dec(1, 0))), Ok(Step::Resync));
}

#[test]
fn unscalable_snapshot_changes_nothing() {
    let scaler = Scaler::with_policy(dec(1, 2), dec(1, 4), Policy::exact()).unwrap();
    let mut market = MarketState::new(scaler);
    market.on_delta(bid_delta(1, 2, dec(1, 0), dec(1, 0))).unwrap();
    let bad = Snapshot { last_update_id: 9, bids: vec![(dec(1, 3), dec(1, 0))], asks: vec![] };
    assert_eq!(market.install_snapshot(bad), Err(ScaleError::UnscalableValue));
    assert_eq!(market.sync().last_update_id(), None);
    assert_eq!(market.sync().buffered(), 1);
}

#[test]
fn replay_ends_at_the_first_gap() {
    let mut market = MarketState::new(cents());
    market.install_snapshot(one_bid_snapshot()).unwrap();
    let told = market.replay(vec![
        bid_delta(101, 101, dec(1, 0), dec(1, 0)),
        bid_delta(105, 106, dec(2, 0), dec(1, 0)),
        bid_delta(102, 102, dec(3, 0), dec(1, 0)),
    ]);
    assert_eq!(told, Ok(Step::Resync));
    assert_eq!(market.sync().last_update_id(), Some(101));
    assert_eq!(market.book().top_n_depth(5), (vec![(1000, 10_000), (100, 10_000)], vec![]));
}

#[test]
fn replay_reports_whether_the_book_moved() {
    let mut market = MarketState::new(cents());
    market.install_snapshot(one_bid_snapshot()).unwrap();
    assert_eq!(market.replay(vec![]), Ok(Step::Unchanged));
    assert_eq!(
        market.replay(vec![
            bid_delta(1, 2, dec(1, 0), dec(1, 0)),
            bid_delta(3, 100, dec(1, 0), dec(1, 0)),
        ]),
        Ok(Step::Unchanged)
    );
    assert_eq!(
        market.replay(vec![
            bid_delta(1, 2, dec(1, 0), dec(1, 0)),
            bid_delta(101, 101, dec(1, 0), dec(1, 0)),
            bid_delta(1, 2, dec(2, 0), dec(1, 0)),
        ]),
        Ok(Step::Updated)
    );
    assert_eq!(market.book().top_n_depth(5), (vec![(1000, 10_000), (100, 10_000)], vec![]));
}

#[test]
fn depth_comes_out_in_decimal_units() {
    let mut market = MarketState::new(cents());
    let snapshot = Snapshot {
        last_update_id: 100,
        bids: vec![(dec(999, 2), dec(5, 1)), (dec(1000, 2), dec(10, 1))],
        asks: vec![(dec(1001, 2), dec(25, 2)), (dec(1002, 2), dec(1, 0))],
    };
    market.install_snapshot(snapshot).unwrap();
    let (bids, asks) = market.top_n_depth(1).unwrap();
    assert_eq!(bids, vec![(dec(1000, 2), dec(10_000, 4))]);
    assert_eq!(asks, vec![(dec(1001, 2), dec(2_500, 4))]);
    let (bids, asks) = market.top_n_depth(2).unwrap();
    assert_eq!(bids, vec![(dec(1000, 2), dec(10_000, 4)), (dec(999, 2), dec(5_000, 4))]);
    assert_eq!(asks, vec![(dec(1001, 2), dec(2_500, 4)), (dec(1002, 2), dec(10_000, 4))]);
}

#[test]
fn depth_that_does_not_fit_a_decimal_is_refused() {
    // Three, written with one fractional digit: a third of the largest price
    // is a tick, but thirty times that tick is no 64-bit mantissa.
    let mut market = MarketState::new(Scaler::new(dec(30, 1), dec(1, 0)).unwrap());
    let snapshot = Snapshot {
        last_update_id: 1,
        bids: vec![(dec(i64::MAX, 0), dec(1, 0))],
        asks: vec![(dec(6, 0), dec(2, 0))],
    };
    assert_eq!(market.install_snapshot(snapshot), Ok(Step::Updated));
    assert_eq!(market.book().top_n_depth(1), (vec![(i64::MAX / 3, 1)], vec![(2, 2)]));
    assert_eq!(market.top_n_depth(1), Err(ScaleError::UnscalableValue));
    assert_eq!(
        market.on_delta(DepthUpdate {
            first_update_id: 2,
            final_update_id: 2,
            bid_changes: vec![(dec(i64::MAX, 0), dec(0, 0))],
            ask_changes: vec![],
        }),
        Ok(Step::Updated)
    );
    assert_eq!(market.top_n_depth(1), Ok((vec![], vec![(dec(60, 1), dec(2, 0))])));
}

#[test]
fn market_exposes_its_scaler() {
    let market = MarketState::new(cents());
    assert_eq!(market.scaler().tick_size(), dec(1, 2));
    assert_eq!(market.scaler().step_size(), dec(1, 4));
}

#[test]
fn front_end_quits_on_q_or_escape_pressed() {
    let market = Arc::new(MarketState::new(cents()));
    let mut app = App::new(market.clone());
    assert!(!app.should_quit());
    app.on_key(Key::Char('x'), KeyKind::Press);
    app.on_key(Key::Other, KeyKind::Press);
    app.on_key(Key::Char('Q'), KeyKind::Press);
    app.on_key(Key::Char('q'), KeyKind::Release);
    app.on_key(Key::Char('q'), KeyKind::Repeat);
    app.on_key(Key::Esc, KeyKind::Release);
    assert!(!app.should_quit());
    app.on_key(Key::Char('q'), KeyKind::Press);
    assert!(app.should_quit());
    app.on_key(Key::Char('x'), KeyKind::Press);
    assert!(app.should_quit());

    let mut app = App::new(market);
    app.on_key(Key::Esc, KeyKind::Press);
    assert!(app.should_quit());
}

#[test]
fn front_end_shows_the_market_it_was_given() {
    let mut market = MarketState::new(cents());
    market.install_snapshot(one_bid_snapshot()).unwrap();
    let app = App::new(Arc::new(market));
    assert_eq!(app.state().book().top_n_depth(1), (vec![(1000, 10_000)], vec![]));
    assert_eq!(POLL_INTERVAL_MS, 100);
}
