//! What lives on the map.

pub mod units;
