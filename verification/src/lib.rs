//! The discrete core of a ray tracer: the scene's data, the layout of its
//! matrices and images, and the rules that pick what a ray sees.
//!
//! Numbers are single-precision IEEE 754 values carried as their bit patterns
//! ([`Scalar`]). Comparisons and sign changes are decided on the bits; sums,
//! products and roots are left to the caller.

pub mod types;

pub use types::matrix::Matrix;
pub use types::scalar::Scalar;
pub use types::tuple::Tuple;
