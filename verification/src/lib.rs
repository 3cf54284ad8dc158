//! A verified core for a read-only catalog of geotagged events.
//!
//! The library filters an in-memory event collection by an optional
//! geographic stage (a per-event inclusion flag, decided by the caller
//! from a great-circle distance) and an optional case-insensitive
//! free-text stage, each stage narrowing the previous result while
//! preserving the original order.

pub mod event;
pub mod filter;
pub mod text;
