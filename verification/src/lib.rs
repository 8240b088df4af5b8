//! Freehand ink strokes: resampling a raw pointer trace into sparse control
//! points with tangent estimates, and evaluating a cubic blend between
//! consecutive control points to rebuild a dense polyline for redrawing.

pub mod evaluate;
pub mod geom;
pub mod resample;
pub mod stroke;
