//! Model problems: second-order ODE operators built from the first and second
//! derivatives that the differentiation matrix gives.
use vstd::prelude::*;
use std::ops::Neg;
use vstd::std_specs::ops::{AddSpec, DivSpec, MulSpec, NegSpec, SubSpec};
use crate::arith::{Arith, FieldOps, div_total, exact, neg_total, total};
use crate::dual::Dual;
use crate::automatic_derivative::ODE;
use crate::matrix::Matrix;
use crate::matrix_op::{apply_matrix, mat_vec};

verus! {

/// The collocation derivative `d·u`.
pub open spec fn first_derivative<T: Arith>(u: Seq<T>, d: Seq<Seq<T>>, zero: T) -> Seq<T> {
    mat_vec(d, u, zero)
}

/// The collocation second derivative `d·(d·u)`.
pub open spec fn second_derivative<T: Arith>(u: Seq<T>, d: Seq<Seq<T>>, zero: T) -> Seq<T> {
    mat_vec(d, mat_vec(d, u, zero), zero)
}

/// Computes `d·u` and `d·(d·u)`.
fn derivatives<T: Arith>(u: &Vec<T>, d: &Matrix<T>, zero: T) -> (r: (Vec<T>, Vec<T>))
    requires
        total::<T>(),
        d.is_square(u@.len()),
    ensures
        r.0@.len() == u@.len(),
        r.1@.len() == u@.len(),
        exact::<T>() ==> r.0@ == first_derivative(u@, d@, zero),
        exact::<T>() ==> r.1@ == second_derivative(u@, d@, zero),
{
    let du = apply_matrix(d, u, zero);
    let d2u = apply_matrix(d, &du, zero);
    (du, d2u)
}

/// Burgers-type equation `u'' + u·u' = f`.
pub struct BurgersODE;

impl<T: Arith> ODE<T> for BurgersODE {
    open spec fn specified() -> bool {
        true
    }

    open spec fn eval_spec(row: int, x: T, u: Seq<T>, d: Seq<Seq<T>>, zero: T, one: T) -> T {
        second_derivative(u, d, zero)[row].add_spec(
            u[row].mul_spec(first_derivative(u, d, zero)[row]),
        )
    }

    fn eval(row: usize, x: T, u: &Vec<T>, d: &Matrix<T>, zero: T, one: T) -> (r: T) {
        let (du, d2u) = derivatives(u, d, zero);
        d2u[row] + u[row] * du[row]
    }
}

/// Nonlinear diffusion `u'' + u² = f`.
pub struct NonlinearDiffusionODE;

impl<T: Arith> ODE<T> for NonlinearDiffusionODE {
    open spec fn specified() -> bool {
        true
    }

    open spec fn eval_spec(row: int, x: T, u: Seq<T>, d: Seq<Seq<T>>, zero: T, one: T) -> T {
        let d2 = second_derivative(u, d, zero);
        d2[row].add_spec(u[row].mul_spec(u[row]))
    }

    fn eval(row: usize, x: T, u: &Vec<T>, d: &Matrix<T>, zero: T, one: T) -> (r: T) {
        let (du, d2u) = derivatives(u, d, zero);
        let ur = u[row];
        d2u[row] + ur * ur
    }
}

/// Fisher–KPP type `u'' + u·(1 − u) = f`.
pub struct FisherODE;

impl<T: Arith> ODE<T> for FisherODE {
    open spec fn specified() -> bool {
        true
    }

    open spec fn eval_spec(row: int, x: T, u: Seq<T>, d: Seq<Seq<T>>, zero: T, one: T) -> T {
        let d2 = second_derivative(u, d, zero);
        d2[row].add_spec(u[row].mul_spec(one.sub_spec(u[row])))
    }

    fn eval(row: usize, x: T, u: &Vec<T>, d: &Matrix<T>, zero: T, one: T) -> (r: T) {
        let (du, d2u) = derivatives(u, d, zero);
        let ur = u[row];
        d2u[row] + ur * (one - ur)
    }
}

/// Convection–diffusion `u'' − u·u'' + u' = f`.
///
/// On plain scalars the operator is evaluated as `u'' − u·u'' + u'`; on dual
/// numbers as `u''·(1 − u) + u'`, the factored form.
pub struct ConvectionDiffusionODE;

impl<T: FieldOps> ODE<T> for ConvectionDiffusionODE {
    open spec fn specified() -> bool {
        true
    }

    open spec fn eval_spec(row: int, x: T, u: Seq<T>, d: Seq<Seq<T>>, zero: T, one: T) -> T {
        let d1 = first_derivative(u, d, zero);
        let d2 = second_derivative(u, d, zero);
        d2[row].sub_spec(u[row].mul_spec(d2[row])).add_spec(d1[row])
    }

    fn eval(row: usize, x: T, u: &Vec<T>, d: &Matrix<T>, zero: T, one: T) -> (r: T) {
        let (du, d2u) = derivatives(u, d, zero);
        d2u[row] - u[row] * d2u[row] + du[row]
    }
}

impl<T: Arith> ODE<Dual<T>> for ConvectionDiffusionODE {
    open spec fn specified() -> bool {
        true
    }

    open spec fn eval_spec(
        row: int,
        x: Dual<T>,
        u: Seq<Dual<T>>,
        d: Seq<Seq<Dual<T>>>,
        zero: Dual<T>,
        one: Dual<T>,
    ) -> Dual<T> {
        let d1 = first_derivative(u, d, zero);
        let d2 = second_derivative(u, d, zero);
        d2[row].mul_spec(one.sub_spec(u[row])).add_spec(d1[row])
    }

    fn eval(
        row: usize,
        x: Dual<T>,
        u: &Vec<Dual<T>>,
        d: &Matrix<Dual<T>>,
        zero: Dual<T>,
        one: Dual<T>,
    ) -> (r: Dual<T>) {
        let (du, d2u) = derivatives(u, d, zero);
        let ur = u[row];
        d2u[row] * (one - ur) + du[row]
    }
}

/// Poisson equation `u'' = f`.
pub struct PoissonODE;

impl<T: Arith> ODE<T> for PoissonODE {
    open spec fn specified() -> bool {
        true
    }

    open spec fn eval_spec(row: int, x: T, u: Seq<T>, d: Seq<Seq<T>>, zero: T, one: T) -> T {
        let d2 = second_derivative(u, d, zero);
        d2[row]
    }

    fn eval(row: usize, x: T, u: &Vec<T>, d: &Matrix<T>, zero: T, one: T) -> (r: T) {
        let (du, d2u) = derivatives(u, d, zero);
        let ur = u[row];
        d2u[row]
    }
}

/// Allen–Cahn equation `u'' − (u³ − u) = 0`.
pub struct AllenCahnODE;

impl<T: Arith> ODE<T> for AllenCahnODE {
    open spec fn specified() -> bool {
        true
    }

    open spec fn eval_spec(row: int, x: T, u: Seq<T>, d: Seq<Seq<T>>, zero: T, one: T) -> T {
        let d2 = second_derivative(u, d, zero);
        d2[row].sub_spec(u[row].mul_spec(u[row]).mul_spec(u[row]).sub_spec(u[row]))
    }

    fn eval(row: usize, x: T, u: &Vec<T>, d: &Matrix<T>, zero: T, one: T) -> (r: T) {
        let (du, d2u) = derivatives(u, d, zero);
        let ur = u[row];
        d2u[row] - (ur * ur * ur - ur)
    }
}

/// Quadratic nonlinearity `u'' − u² = f`.
pub struct QuadraticNonlinearODE;

impl<T: Arith> ODE<T> for QuadraticNonlinearODE {
    open spec fn specified() -> bool {
        true
    }

    open spec fn eval_spec(row: int, x: T, u: Seq<T>, d: Seq<Seq<T>>, zero: T, one: T) -> T {
        let d2 = second_derivative(u, d, zero);
        d2[row].sub_spec(u[row].mul_spec(u[row]))
    }

    fn eval(row: usize, x: T, u: &Vec<T>, d: &Matrix<T>, zero: T, one: T) -> (r: T) {
        let (du, d2u) = derivatives(u, d, zero);
        let ur = u[row];
        d2u[row] - ur * ur
    }
}

/// Duffing-type hardening spring `u'' + u + u³ = f`.
pub struct DuffingODE;

impl<T: Arith> ODE<T> for DuffingODE {
    open spec fn specified() -> bool {
        true
    }

    open spec fn eval_spec(row: int, x: T, u: Seq<T>, d: Seq<Seq<T>>, zero: T, one: T) -> T {
        let d2 = second_derivative(u, d, zero);
        d2[row].add_spec(u[row]).add_spec(u[row].mul_spec(u[row]).mul_spec(u[row]))
    }

    fn eval(row: usize, x: T, u: &Vec<T>, d: &Matrix<T>, zero: T, one: T) -> (r: T) {
        let (du, d2u) = derivatives(u, d, zero);
        let ur = u[row];
        d2u[row] + ur + ur * ur * ur
    }
}

/// `a` with both parts multiplied by the scalar `c`.
pub open spec fn scaled<T: Arith>(a: Dual<T>, c: T) -> Dual<T> {
    Dual { real: a.real.mul_spec(c), eps: a.eps.mul_spec(c) }
}

/// `a` with the scalar `c` subtracted from its value part.
pub open spec fn shifted<T: Arith>(a: Dual<T>, c: T) -> Dual<T> {
    Dual { real: a.real.sub_spec(c), eps: a.eps }
}

/// `2`, `1/2`, the front speed `s = 3/2` and the coefficient `δ̄ = 5`, built from `one`.
pub open spec fn front_constants<T: FieldOps>(one: T) -> (T, T, T) {
    let two = one.add_spec(one);
    let half = one.div_spec(two);
    (half, one.add_spec(half), two.mul_spec(two).add_spec(one))
}

/// Computes `(1/2, s, δ̄)` from `one`, as `front_constants` describes.
fn front_constants_of<T: FieldOps>(one: T) -> (r: (T, T, T))
    requires
        total::<T>(),
        div_total::<T>(),
    ensures
        exact::<T>() && T::obeys_div_spec() ==> r == front_constants(one),
{
    let two = one + one;
    let half = one / two;
    (half, one + half, two * two + one)
}

/// A traveling-front model with speed `s = 3/2` and coefficient `δ̄ = 5`:
/// `−s·u·(u − s) − u + ½·u²·(u − s) + δ̄·(u − s)·u'' − δ̄·(u − s)·u' = 0`.
pub struct ImportantOde;

impl<T: FieldOps> ODE<T> for ImportantOde {
    open spec fn specified() -> bool {
        T::obeys_div_spec() && T::obeys_neg_spec()
    }

    open spec fn admissible() -> bool {
        div_total::<T>() && neg_total::<T>()
    }

    open spec fn eval_spec(row: int, x: T, u: Seq<T>, d: Seq<Seq<T>>, zero: T, one: T) -> T {
        let (half, s, delta) = front_constants(one);
        let d1 = first_derivative(u, d, zero);
        let d2 = second_derivative(u, d, zero);
        let ur = u[row];
        let us = ur.sub_spec(s);
        s.neg_spec().mul_spec(ur).mul_spec(us).sub_spec(ur).add_spec(half.mul_spec(ur).mul_spec(ur).mul_spec(us)).add_spec(
            delta.mul_spec(us).mul_spec(d2[row]),
        ).sub_spec(delta.mul_spec(us).mul_spec(d1[row]))
    }

    fn eval(row: usize, x: T, u: &Vec<T>, d: &Matrix<T>, zero: T, one: T) -> (r: T) {
        let (du, d2u) = derivatives(u, d, zero);
        let (half, s, delta) = front_constants_of(one);
        let ur = u[row];
        s.neg() * ur * (ur - s) - ur + half * ur * ur * (ur - s) + delta * (ur - s) * d2u[row] - delta * (ur - s)
            * du[row]
    }
}

impl<T: FieldOps> ODE<Dual<T>> for ImportantOde {
    open spec fn specified() -> bool {
        exact::<T>() && T::obeys_div_spec() && T::obeys_neg_spec()
    }

    open spec fn admissible() -> bool {
        total::<T>() && div_total::<T>() && neg_total::<T>()
    }

    open spec fn eval_spec(
        row: int,
        x: Dual<T>,
        u: Seq<Dual<T>>,
        d: Seq<Seq<Dual<T>>>,
        zero: Dual<T>,
        one: Dual<T>,
    ) -> Dual<T> {
        let (half, s, delta) = front_constants(one.real);
        let d1 = first_derivative(u, d, zero);
        let d2 = second_derivative(u, d, zero);
        let ur = u[row];
        let us = shifted(ur, s);
        scaled(ur.mul_spec(us), s.neg_spec()).sub_spec(ur).add_spec(scaled(ur.mul_spec(ur).mul_spec(us), half)).add_spec(
            scaled(us.mul_spec(d2[row]), delta),
        ).sub_spec(scaled(us.mul_spec(d1[row]), delta))
    }

    fn eval(
        row: usize,
        x: Dual<T>,
        u: &Vec<Dual<T>>,
        d: &Matrix<Dual<T>>,
        zero: Dual<T>,
        one: Dual<T>,
    ) -> (r: Dual<T>) {
        let (du, d2u) = derivatives(u, d, zero);
        let (half, s, delta) = front_constants_of(one.real);
        let neg_s = s.neg();
        let ur = u[row];
        let us = ur.sub_scalar(s);
        (ur * us).mul_scalar(neg_s) - ur + (ur * ur * us).mul_scalar(half) + (us * d2u[row]).mul_scalar(delta) - (us
            * du[row]).mul_scalar(delta)
    }
}

} // verus!
