//! Renders a voxel world's block data into a top-down surface map.
//!
//! The pipeline scans each column of blocks from the top downward,
//! alpha-composites the voxel colors it meets, records surface elevations,
//! and finally flattens the assembled terrain grid into an opaque pixel
//! buffer, optionally shaded by the local slope of the elevation field.

pub mod color;
pub mod config;
pub mod mapblock;
pub mod render;
pub mod terrain;
