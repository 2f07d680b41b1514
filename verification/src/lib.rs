//! A small symbolic-expression engine with numerical approximation
//! algorithms: expression trees with simplifying constructors and symbolic
//! differentiation, dense polynomial arithmetic, deterministic quadrature,
//! Legendre projection, and gradient-descent curve fitting.
//!
//! All scalar arithmetic is exact: values are rational numbers with `i128`
//! numerator and denominator, and every operation either returns the exact
//! result in lowest terms or reports that it does not fit.

pub mod approx;
pub mod laws;
pub mod func;
pub mod integration;
pub mod polynomial;
pub mod rat;
pub mod rng;
pub mod util;
