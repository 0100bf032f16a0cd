//! Dungeons of uniquely named rooms joined by North, South, East and West
//! links: building them by hand or from a line-oriented text format, and
//! finding a path between two rooms.

pub mod dungeon;
pub mod error;
pub mod laws;
pub mod parse;
pub mod room;
mod search;
pub mod text;

pub use dungeon::{all_links, Dungeon};
pub use error::Errors;
pub use room::{Direction, Neighbours, Room};
