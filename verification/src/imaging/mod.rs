//! Operations on whole images.

pub mod affine;
