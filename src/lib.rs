//! Oriented FAST keypoints and rotated BRIEF descriptors on 8-bit grayscale
//! rasters, with greedy Hamming matching between two descriptor sets.

pub mod bitset;
pub mod common;
pub mod fast;
pub mod orb;
pub mod raster;
