//! Aggregation and pricing rules for a collection of tradable inventory items:
//! merging inventory slots of one class, joining them with their catalog
//! descriptions, selecting containers, decoding price fields, and planning and
//! assembling the per-item price lookups.

pub mod containers;
pub mod decimal;
pub mod prices;
pub mod requests;
pub mod state;
