//! An in-memory store for street-map points and ways with id lookup tables,
//! the insertion log of a two-dimensional point index, and a compressed
//! binary snapshot of the whole structure.
//!
//! Coordinates are held as IEEE-754 binary64 bit patterns, so that every
//! value survives a snapshot bit for bit.

pub mod codec;
pub mod compress;
pub mod index;
pub mod layout;
pub mod model;
pub mod snapshot;
pub mod spatial;
pub mod store;
pub mod wire;
