//! Contacts between entities, contacts between entities and solid tiles, and
//! the pushing of entities out of the tiles they have run into.

pub mod contact;
pub mod geometry;
pub mod pairs;
pub mod restitution;
pub mod tile_contacts;

pub use contact::{Contact, TileContact};
pub use geometry::{
    body_rect, rect_displacement, rect_touching, resources_displacement, resources_touching,
};
pub use pairs::gather_contacts;
pub use restitution::{push_out, restitute};
pub use tile_contacts::gather_contacts_tilemap;
