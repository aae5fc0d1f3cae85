//! A verified two-dimensional gravity simulator.
//!
//! Bodies attract one another pairwise, colliding bodies merge with exact
//! mass conservation, and a bounded history of snapshots lets a driver
//! rewind the simulation and restore an earlier state.
//!
//! All physical quantities are fixed-point integers: masses in kilograms,
//! radii and positions in millimetres, velocities in micrometres per
//! second, accelerations in nanometres per second squared, and time in
//! milliseconds. Every arithmetic step of the engine is stated exactly,
//! over mathematical integers, in the contracts.

pub mod bodies;
pub mod laws;
pub mod nums;
pub mod prefabs;
pub mod scan;
pub mod system;
pub mod table;
