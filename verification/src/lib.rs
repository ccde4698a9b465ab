//! Translation handle of an interactive 3-D manipulation gizmo.
//!
//! The crate models the per-frame pick/drag protocol of a translation
//! handle: hit-test bookkeeping, closest-point and ray/plane geometry,
//! and snapping quantization.  All scalars are fixed-point integers with
//! `math::FX_ONE` units per world-space unit, so every computation has an
//! exact arithmetic meaning that the contracts state in full.

pub mod math;
pub mod translation;
pub mod vec3;
