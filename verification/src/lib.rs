//! Verified CPU-side logic of the NAADF voxel renderer: the voxel-cell
//! encoding, the dense test volume, the chunk/block/voxel segment buffer that
//! the GPU construction passes read, the packed GPU structs, the per-frame
//! counters and buffer sizes, the world-change dispatch plan, and the checks
//! that compare a GPU-built world with its CPU oracle.

pub mod bits;
pub mod voxel;
pub mod volume;
pub mod layout;
pub mod segment;
pub mod half;
pub mod gpu_types;
pub mod model;
pub mod cell;
pub mod readback;
pub mod counters;
pub mod prepare;
pub mod world_change;
pub mod diff;
pub mod fixture;
pub mod vox;
pub mod text;
pub mod report;
