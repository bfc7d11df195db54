//! A univariate linear model `y = w * x + b`, fitted by batch gradient
//! descent on mean-squared error.
//!
//! All quantities are fixed-point numbers: an `i64` holds the real value
//! multiplied by [`arith::SCALE`]. Every arithmetic step of training is
//! specified exactly, down to the truncating divisions, so the trained
//! parameters and the reported loss are pinned by the contracts.

pub mod arith;
pub mod model;
pub mod laws;

pub use model::Error;
pub use model::LinearRegression;
