//! Arithmetic on uncertain values.
//!
//! Absolute uncertainties add and subtract; relative uncertainties multiply
//! and divide. Either operand may be a plain scalar, which counts as a value
//! with no uncertainty.
pub mod add;
pub mod div;
pub mod mul;
pub mod sub;
