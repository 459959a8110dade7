//! Single-feature linear regression (BMI -> life expectancy): an affine model
//! `y = w*x + b` trained by full-batch gradient descent on mean squared error,
//! with the trained parameters persisted as a small versioned record.
//!
//! All arithmetic is exact fixed-point over micro-units (millionths), so every
//! numeric step of training, inference and persistence is verified.

pub mod api;
pub mod codec;
pub mod error;
pub mod fixed;
pub mod model;
pub mod train;
