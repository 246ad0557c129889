//! Per-tile data on a hexagonal grid, and the pheromone-like signals that
//! accumulate, decay and diffuse across it.
//!
//! * [`simulation::map`] ties data to the tiles of a map. A
//!   [`MapResource`](simulation::map::resources::MapResource) stores one cell
//!   per tile and leads to it both by the tile's position and through the
//!   patches of neighbouring tiles, without ever copying a cell.
//! * [`signals`] keeps the signals of each emitter at a tile: increments that
//!   count at once, deltas that wait for a commit, decay, and the colour in
//!   which a tile is drawn.
//! * [`organisms::units`] turns the signals that a unit senses into a weight
//!   for its decisions, by way of a rising curve from [`curves`].
//!
//! Strengths, probabilities and weights are fixed-point numbers, counted in
//! millionths: see [`amount`]. Cells are kept in a [`KeyedArena`](arena), in
//! which a slot number is the handle to a cell.

pub mod amount;
pub mod arena;
pub mod curves;
pub mod key_index;
pub mod organisms;
pub mod signals;
pub mod simulation;
