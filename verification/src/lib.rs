//! Reader for tile-map documents: maps, their tilesets and their tile layers.
//!
//! A document is first turned into a sequence of markup events, and everything
//! that follows is a function of that sequence: attribute extraction, the walk
//! over child elements, the decoding of layer bodies and the resolution of
//! tilesets through a cache.
//!
//! The library opens no files. Where a map names a tileset kept in a file of
//! its own, reading the map says which file is needed; the caller reads it,
//! enters it into the cache and reads the map again.

pub mod animation;
pub mod cache;
pub mod error;
pub mod events;
pub mod image;
pub mod layers;
pub mod map;
pub mod objects;
pub mod properties;
pub mod text;
pub mod tile;
pub mod tileset;
pub mod util;
