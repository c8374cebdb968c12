//! Measurements with an uncertainty, and arithmetic that carries the
//! uncertainty along.
//!
//! A measurement is a value with an absolute uncertainty, such as
//! 14.6 ± 0.2 mm, or with a relative one, such as 14.7 ± 1.369%. The two
//! forms are two types, `AbUnc` and `RelUnc`, and what they share is the
//! trait `Uncertainty`. Absolute uncertainties add and subtract; relative
//! ones multiply, divide and take powers. The uncertainty of a result bounds
//! the worst case: the uncertainties of the operands add, and a power
//! multiplies the fraction. A plain number counts as a value with no
//! uncertainty. Two measurements overlap when the intervals they stand for
//! meet.
//!
//! All numbers are exact: a `Scalar` is a fraction of two integers, so the
//! rules hold as they are written, and each function says in its contract
//! what it returns. Where a result is not defined or cannot be held, it is
//! the undefined scalar, which every further operation hands on.
pub mod abunc;
pub mod convert;
pub mod laws;
pub mod model;
pub mod numth;
pub mod ops;
pub mod order;
pub mod powers;
pub mod relunc;
pub mod roots;
pub mod scalar;
pub mod scalar_ops;
pub mod text;
pub mod unc;
pub mod uncval;
pub mod uncvec;
pub mod vec;

pub use abunc::AbUnc;
pub use relunc::RelUnc;
pub use scalar::Scalar;
pub use unc::{UncertainValue, Uncertainty};
pub use uncval::{AbUncVal, RelUncVal, UncVal};
