//! The error type shared by every stage of the measurement.
use vstd::prelude::*;

verus! {

/// Why a measurement stage could not produce a result.
#[derive(Clone, Copy, Debug, PartialEq, Eq, Structural)]
pub enum GeometryError {
    /// A window, index or coordinate falls outside the grid it refers to,
    /// or a window that must hold pixels is empty.
    IndexRange,
    /// Two fitted lines are parallel, a line has no slope to divide by, or
    /// the reference lines of a frame coincide or lie out of order.
    DegenerateLines,
    /// The two reference lines that define the length scale coincide.
    Calibration,
}

} // verus!
