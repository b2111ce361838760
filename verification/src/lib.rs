//! A small 2D game engine core: axis-aligned collision between entities and
//! against tilemaps, the pushing of entities out of solid tiles, and the
//! clocks that pick the frames of sprite animations.
//!
//! Every function is verified against a contract over the mathematical
//! models defined next to it.

pub mod animation;
pub mod collision;
pub mod error;
pub mod resources;
pub mod sprite;
pub mod text;
pub mod tiles;
pub mod types;
