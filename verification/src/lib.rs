//! Geometric quality-assurance measurements on radiotherapy detector images.
//!
//! The library locates a calibration test tool in a detector image, corrects
//! its rotation, finds the printed reference lines, measures where the edges
//! of the radiation field fall relative to them, and measures the offset of a
//! circular target from the reference centre.
//!
//! All arithmetic is exact: lengths are integers in thousandths of a
//! centimetre, lines have rational slope and intercept, and rotations are
//! given by fixed-point direction cosines.
pub mod error;
pub mod arith;
pub mod grid;
pub mod calibration;
pub mod levels;
pub mod rotate;
pub mod lines;
pub mod circle;
pub mod localize;
pub mod render;
pub mod details;
pub mod edges;
pub mod solver;
pub mod pipeline;
