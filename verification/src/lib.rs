//! Procedural terrain on a hexagonal grid that wraps around horizontally:
//! grid topology, tectonic plates grown from seeds, the borders between
//! plates and the slopes that run from each border back to its plate's seed.

pub mod cmd;
pub mod mesh;
pub mod render;
pub mod topography;
pub mod utils;
