//! A stream transform from trades to a momentum indicator.
//!
//! Each inbound message names a token and carries a price. The library keeps
//! the most recent prices of every token, computes the relative strength
//! index over a trailing window whenever a new price completes one, and says
//! what the ingestion loop has to do with each event: what to publish, and
//! whether to commit the offset. The loop itself, the message bus and the
//! process around them are not part of the library.
//!
//! Prices and index values are fixed-point numbers: whole numbers of ticks,
//! `decimal::PRICE_SCALE` ticks to the unit.

pub mod clock;
pub mod config;
pub mod decimal;
pub mod history;
pub mod indicator;
pub mod orchestrator;
pub mod payload;
