//! What the rest of the library is built on: seeded generators, sets and maps
//! of hexes, the queue that hands its items out in random order, and map
//! identifiers.

pub mod id;
pub mod keyed;
pub mod queues;
pub mod random;
