//! Rules engine for a tile-placement word game: a spatial board of tiles, letter
//! pieces, placements of pieces along an axis, and a scoring function that
//! combines per-tile base values with positional modifiers.

pub mod component;
pub mod lang;
pub mod space;
