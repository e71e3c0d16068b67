//! A deterministic pseudo-random bit and byte generator built on a
//! one-dimensional binary cellular automaton.
//!
//! The generator holds a fixed-size circular array of boolean cells (the
//! ring), seeded once from a byte buffer. Each step computes a new ring by
//! applying a rule table to every cell's five-cell neighborhood (two left
//! neighbors, the cell itself, two right neighbors, wrapping circularly),
//! and the generator emits the cell at the ring's midpoint as one
//! pseudo-random bit. Bytes are packed from eight consecutive bits,
//! least-significant bit first.

pub mod generator;
pub mod model;

pub use generator::CAError;
pub use generator::CARandomGenerator;
