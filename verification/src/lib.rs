//! Estimates how much of a recorded GPS track, in distance and in time, fell
//! inside the detection range of roadside cameras.
//!
//! The engine works on fixed-point integers: coordinates in nanodegrees,
//! distances in millimeters, bearings in millidegrees, times in seconds or
//! milliseconds. Floating-point inputs are converted at the boundary by the
//! surrounding application.

pub mod aggregate;
pub mod camera;
pub mod engine;
pub mod geo;
pub mod numeric;
pub mod scan;
pub mod simulate;
pub mod stats;
pub mod track;
