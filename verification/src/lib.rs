//! Edge-aware refinement of a coarse segmentation mask by a joint bilateral
//! pass over fixed-capacity buffers.
//!
//! Samples are integers. Source intensities are `i32`, mask samples and kernel
//! weights are unsigned fixed-point numbers (`u32`) on a scale of the caller's
//! choosing; every quotient is rounded down.
//!
//! The weight of a sample depends on its intensity difference to the center of
//! the window alone, not on its distance from it. The table of weights for a
//! range is computed by the caller and handed to the pass, which takes it
//! where the range has changed and keeps its own where it has not.

pub mod error;
pub mod geometry;
pub mod kernel;
pub mod window;
pub mod engine;
pub mod laws;
