//! A grid-based game of tag: one tagged agent chases the agents it can see,
//! the others flee and wander, and the tag passes on contact.
//!
//! The grid is a dense occupancy index over all cells ([`world_grid::WorldGrid`]);
//! the agents live in a structure-of-arrays store ([`agents::Agents`]) that
//! moves them, steers them and hands the tag on, once per tick.

pub mod agent;
pub mod agents;
pub mod rules;
mod random;
pub mod simulation;
pub mod world_grid;
