//! The records a market-data feed hands to the book: snapshots and deltas.
use crate::decimal::Decimal;
use vstd::prelude::*;

verus! {

/// One incremental depth message. It covers the exchange's update ids from
/// `first_update_id` to `final_update_id`, and names for each side the price
/// levels whose total quantity changed, as `(price, quantity)`.
#[derive(Clone, Debug, PartialEq, Eq)]
pub struct DepthUpdate {
    pub first_update_id: u64,
    pub final_update_id: u64,
    pub bid_changes: Vec<(Decimal, Decimal)>,
    pub ask_changes: Vec<(Decimal, Decimal)>,
}

/// A point-in-time image of the book, current as of `last_update_id`.
#[derive(Clone, Debug, PartialEq, Eq)]
pub struct Snapshot {
    pub last_update_id: u64,
    pub bids: Vec<(Decimal, Decimal)>,
    pub asks: Vec<(Decimal, Decimal)>,
}

} // verus!
