//! Data and state core of a turn-based terminal roguelike: an entity-component
//! store, a tile map with visibility and occupancy, a deferred drawing queue and
//! a message log.
pub mod api;
pub mod ecs;
pub mod gamelog;
pub mod geometry;
pub mod gui;
pub mod map;
pub mod table;
pub mod tile;
pub mod utils;
