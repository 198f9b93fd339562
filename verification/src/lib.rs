//! Escape-time fractal rendering core: sub-pixel sampling, reconstruction
//! filters, escape-time evaluation and per-pixel accumulation, all carried
//! out in a binary fixed-point arithmetic whose behaviour is specified and
//! verified down to the bit.

pub mod driver;
pub mod fixed;
pub mod julia;
pub mod reconstruction;
pub mod rendering;
pub mod sampling;
