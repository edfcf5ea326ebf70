//! A local replica of an exchange's limit order book.
//!
//! The book is seeded from a point-in-time snapshot and then kept current by a
//! stream of sequenced depth updates. Three pieces cooperate:
//!
//! * [`scaler`] turns exact decimals into integer ticks and back,
//! * [`sync`] decides, from update ids alone, what to do with each delta,
//! * [`orderbook`] holds the two price-ordered sides and applies level changes.
//!
//! [`engine`] ties the three together into one step per event, and [`tui`]
//! holds the decisions of the terminal front end.
pub mod decimal;
pub mod engine;
pub mod feed;
pub mod ladder;
pub mod orderbook;
pub mod scaler;
pub mod sync;
pub mod tui;
