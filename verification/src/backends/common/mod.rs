//! Format-agnostic helpers shared by every backend.
//!
//! * [`buffer`]: gate arrays in which cells that nothing filled stay missing.
//! * [`coords`]: the axes of a sweep, in the order of its sorted rays.
//! * [`geometry`]: the gates of a moment and their range axis.
//! * [`metadata`]: units and names of the moments.
//! * [`parallel`]: fan-out over records and sweeps.
//! * [`sniff`]: recognising a file by its name, extension and first bytes.
//! * [`sort`]: stable orders, by keys and by angles.

pub mod buffer;
pub mod coords;
pub mod geometry;
pub mod metadata;
pub mod parallel;
pub mod sniff;
pub mod sort;
