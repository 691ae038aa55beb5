//! Spectral collocation on multi-interval domains, with Jacobians computed by
//! forward-mode automatic differentiation over dual numbers.
//!
//! The library is generic over the scalar type: every computation is written
//! with the operator traits of `std::ops`, and every contract is stated over the
//! specification functions that vstd attaches to those traits.
use vstd::prelude::*;

pub mod arith;
pub mod banded;
pub mod automatic_derivative;
pub mod boundary_conditions;
pub mod dual;
pub mod dual_laws;
pub mod jacobian;
pub mod laws;
pub mod matrix;
pub mod matrix_op;
pub mod multi_interval_domain;
pub mod plotting;
pub mod primal;
pub mod sparsity;
pub mod tangent;
pub mod test_odes;
