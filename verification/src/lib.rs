//! Flocking simulation core: a bounded spatial index over grid cells, the
//! population policy that keeps the agent count near its target, and the
//! discrete decisions of the flocking update.

pub mod flocking;
pub mod grid_cell;
pub mod grid_laws;
pub mod population;
pub mod proximity_grid;
