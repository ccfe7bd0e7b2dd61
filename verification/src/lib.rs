//! Tile atlas geometry, symbolic tile lookup and the marker component for
//! directional movement of a tile-based 2D world.
//!
//! Every executable function carries a contract over a mathematical model of
//! its data, and the contracts are machine-checked.

pub mod component;
pub mod map_data;
pub mod grid;
pub mod decode;
pub mod tilemap;
