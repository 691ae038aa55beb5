//! Boundary conditions imposed at the ends of the domain.
use vstd::prelude::*;
use vstd::std_specs::ops::SubSpec;
use crate::arith::{Arith, exact, total};
use crate::matrix::Matrix;
use crate::matrix_op::{apply_matrix, mat_vec};

verus! {

/// Which end of an interval a boundary condition is imposed on.
#[derive(Clone, Copy, PartialEq, Eq, Debug, Structural)]
pub enum Endpoint {
    Left,
    Right,
}

/// A boundary condition: the value (`Dirichlet`) or the derivative (`Neumann`)
/// of the solution at an endpoint is prescribed.
#[derive(Clone, Copy, Debug)]
pub enum BoundaryCondition<T> {
    Dirichlet(T),
    Neumann(T),
}

/// The index of the endpoint among `len` collocation values.
pub open spec fn endpoint_index(endpoint: Endpoint, len: nat) -> int {
    match endpoint {
        Endpoint::Left => 0,
        Endpoint::Right => len - 1,
    }
}

impl<T: Arith> BoundaryCondition<T> {
    /// The inputs on which `apply` is defined: the endpoint value (Dirichlet) or
    /// the endpoint entry of `d·u` (Neumann) exists.
    pub open spec fn applicable(&self, u: Seq<T>, d: Seq<Seq<T>>, endpoint: Endpoint) -> bool {
        &&& (endpoint == Endpoint::Right ==> u.len() >= 1)
        &&& match self {
            BoundaryCondition::Dirichlet(_) => u.len() >= 1,
            BoundaryCondition::Neumann(_) => endpoint_index(endpoint, u.len()) < d.len(),
        }
    }

    /// The residual of the condition: `u[idx] − val` for Dirichlet,
    /// `(d·u)[idx] − val` for Neumann.
    pub open spec fn residual_spec(&self, u: Seq<T>, d: Seq<Seq<T>>, endpoint: Endpoint, zero: T) -> T {
        let idx = endpoint_index(endpoint, u.len());
        match self {
            BoundaryCondition::Dirichlet(val) => u[idx].sub_spec(*val),
            BoundaryCondition::Neumann(val) => mat_vec(d, u, zero)[idx].sub_spec(*val),
        }
    }

    /// How far `u` is from meeting the condition at `endpoint`, where `d` is the
    /// differentiation matrix of the interval that `u` lives on.
    pub fn apply(&self, u: &Vec<T>, d: &Matrix<T>, endpoint: Endpoint, zero: T) -> (r: T)
        requires
            total::<T>(),
            self.applicable(u@, d@, endpoint),
        ensures
            exact::<T>() ==> r == self.residual_spec(u@, d@, endpoint, zero),
    {
        let idx = match endpoint {
            Endpoint::Left => 0,
            Endpoint::Right => u.len() - 1,
        };
        match self {
            BoundaryCondition::Dirichlet(val) => u[idx] - *val,
            BoundaryCondition::Neumann(val) => {
                let du = apply_matrix(d, u, zero);
                du[idx] - *val
            },
        }
    }
}

} // verus!
