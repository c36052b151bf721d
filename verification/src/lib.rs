//! Core of a batch-auction trading protocol's off-chain services.
//!
//! The crate covers the four tightly coupled subsystems of the stack:
//! a native-price cache with background refresh ([`native_price_cache`]),
//! an in-flight order tracker that hides or down-scales just-settled orders
//! from freshly built auctions ([`in_flight_orders`]), a settlement
//! submission engine racing several mempools with revert protection
//! ([`mempools`]), and a settlement event reconciler joining on-chain
//! events back to the auction that produced them
//! ([`on_settlement_event_updater`]), together with the order book's
//! decision rules ([`orderbook`]), surplus analytics ([`analytics`]) and
//! the solver notification model ([`notification`]).
//!
//! Chain access, databases, clocks and task scheduling live outside the
//! crate; every function here is a total, verified rule from plain values
//! to plain values.

pub mod analytics;
pub mod in_flight_orders;
pub mod mempools;
pub mod native_price_cache;
pub mod notification;
pub mod on_settlement_event_updater;
pub mod order;
pub mod orderbook;
pub mod settlement;
