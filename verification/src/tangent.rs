//! The derivative parts of computations on dual numbers: evaluating on
//! `u + v·ε`, with the differentiation data taken as constants, computes in
//! the derivative part the directional derivative of the computation at `u`
//! in direction `v`.
use vstd::prelude::*;
use vstd::std_specs::ops::{AddSpec, MulSpec, NegSpec, SubSpec};
use crate::arith::{Arith, FieldOps};
use crate::dual::Dual;
use crate::matrix::rectangular;
use crate::matrix_op::{dot_prefix, mat_vec};
use crate::automatic_derivative::{ODE, block, forcing_fits, residual_spec};
use crate::boundary_conditions::{BoundaryCondition, Endpoint, endpoint_index};
use crate::jacobian::{dual_residual, seeded};
use crate::multi_interval_domain::CollocationDomain;
use crate::primal::{bc_projects, domain_projects, lemma_derivatives_reals, lemma_row_of, matrix_reals, reals};
use crate::test_odes::{
    AllenCahnODE, BurgersODE, ConvectionDiffusionODE, DuffingODE, FisherODE, ImportantOde,
    NonlinearDiffusionODE, PoissonODE, QuadraticNonlinearODE, first_derivative, front_constants,
    second_derivative,
};

verus! {

/// The derivative parts of `w`.
pub open spec fn eps_parts<T>(w: Seq<Dual<T>>) -> Seq<T> {
    Seq::new(w.len(), |i: int| w[i].eps)
}

/// The dual numbers with values `u` and derivative parts `v`.
pub open spec fn with_eps<T>(u: Seq<T>, v: Seq<T>) -> Seq<Dual<T>> {
    Seq::new(u.len(), |i: int| Dual { real: u[i], eps: v[i] })
}

/// The `n` values that are `one` at `k` and `zero` elsewhere.
pub open spec fn unit<T>(n: nat, k: int, zero: T, one: T) -> Seq<T> {
    Seq::new(n, |i: int| if i == k { one } else { zero })
}

/// `zero` is absorbing for `·` on the right and neutral for `+` on the left and
/// for `−` on the right.
pub open spec fn zero_identities<T: Arith>(zero: T) -> bool {
    forall|a: T|
        #![trigger a.mul_spec(zero)]
        #![trigger zero.add_spec(a)]
        #![trigger a.sub_spec(zero)]
        a.mul_spec(zero) == zero && zero.add_spec(a) == a && a.sub_spec(zero) == a
}

/// Every entry of `d` is a constant: its derivative part is `zero`.
pub open spec fn constant_matrix<T>(d: Seq<Seq<Dual<T>>>, zero: T) -> bool {
    forall|i: int, j: int| 0 <= i < d.len() && 0 <= j < d[i].len() ==> (#[trigger] d[i][j]).eps == zero
}

proof fn lemma_dot_prefix_eps<T: Arith>(row: Seq<Dual<T>>, w: Seq<Dual<T>>, k: int, zero: T)
    requires
        0 <= k <= row.len(),
        k <= w.len(),
        zero_identities(zero),
        forall|j: int| 0 <= j < row.len() ==> (#[trigger] row[j]).eps == zero,
    ensures
        dot_prefix(row, w, k, Dual { real: zero, eps: zero }).eps == dot_prefix(
            reals(row),
            eps_parts(w),
            k,
            zero,
        ),
    decreases k,
{
    if k > 0 {
        lemma_dot_prefix_eps(row, w, k - 1, zero);
        let a = w[k - 1];
        let b = row[k - 1];
        assert(b.eps == zero);
        assert(a.real.mul_spec(b.eps) == zero);
        assert(zero.add_spec(a.eps.mul_spec(b.real)) == a.eps.mul_spec(b.real));
    }
}

/// With a constant matrix, the derivative part of a matrix–vector product on
/// dual numbers is the matrix of values applied to the derivative parts.
pub proof fn lemma_mat_vec_eps<T: Arith>(d: Seq<Seq<Dual<T>>>, w: Seq<Dual<T>>, zero: T)
    requires
        zero_identities(zero),
        constant_matrix(d, zero),
    ensures
        eps_parts(mat_vec(d, w, Dual { real: zero, eps: zero })) == mat_vec(
            matrix_reals(d),
            eps_parts(w),
            zero,
        ),
{
    let z = Dual { real: zero, eps: zero };
    assert forall|i: int| 0 <= i < d.len() implies #[trigger] eps_parts(mat_vec(d, w, z))[i] == mat_vec(
        matrix_reals(d),
        eps_parts(w),
        zero,
    )[i] by {
        let row = d[i];
        let k = if row.len() <= w.len() { row.len() } else { w.len() };
        assert forall|j: int| 0 <= j < row.len() implies (#[trigger] row[j]).eps == zero by {
            assert(d[i][j].eps == zero);
        }
        lemma_dot_prefix_eps(row, w, k as int, zero);
        assert(reals(row).len() == row.len());
    }
    assert(eps_parts(mat_vec(d, w, z)) =~= mat_vec(matrix_reals(d), eps_parts(w), zero));
}


/// The first and second collocation derivatives of `u + v·ε`, with a constant
/// matrix, are those of `u` in their value parts and those of `v` in their
/// derivative parts.
pub proof fn lemma_derivatives_tangent<T: Arith>(u: Seq<T>, v: Seq<T>, d: Seq<Seq<Dual<T>>>, zero: T)
    requires
        v.len() == u.len(),
        zero_identities(zero),
        constant_matrix(d, zero),
    ensures
        reals(first_derivative(with_eps(u, v), d, Dual { real: zero, eps: zero })) == first_derivative(
            u,
            matrix_reals(d),
            zero,
        ),
        reals(second_derivative(with_eps(u, v), d, Dual { real: zero, eps: zero })) == second_derivative(
            u,
            matrix_reals(d),
            zero,
        ),
        eps_parts(first_derivative(with_eps(u, v), d, Dual { real: zero, eps: zero })) == first_derivative(
            v,
            matrix_reals(d),
            zero,
        ),
        eps_parts(second_derivative(with_eps(u, v), d, Dual { real: zero, eps: zero }))
            == second_derivative(v, matrix_reals(d), zero),
{
    let z = Dual { real: zero, eps: zero };
    let w = with_eps(u, v);
    assert(reals(w) =~= u);
    assert(eps_parts(w) =~= v);
    lemma_derivatives_reals(w, d, zero);
    lemma_mat_vec_eps(d, w, zero);
    lemma_mat_vec_eps(d, mat_vec(d, w, z), zero);
}

/// At one row: the operator `O` evaluated on `u + v·ε`, with a constant
/// differentiation matrix, has as derivative part
/// `tangent(row, x, u, v, d, zero, one)`.
pub open spec fn linearized_at<T: Arith, O: ODE<Dual<T>>>(
    tangent: spec_fn(int, T, Seq<T>, Seq<T>, Seq<Seq<T>>, T, T) -> T,
    row: int,
    x: Dual<T>,
    u: Seq<T>,
    v: Seq<T>,
    d: Seq<Seq<Dual<T>>>,
    zero: T,
    one: T,
) -> bool {
    0 <= row < u.len() && v.len() == u.len() && d.len() == u.len() && rectangular(d, u.len())
        && constant_matrix(d, zero) && zero_identities(zero) ==> (O::eval_spec(
        row,
        x,
        with_eps(u, v),
        d,
        Dual { real: zero, eps: zero },
        Dual { real: one, eps: zero },
    )).eps == tangent(row, x.real, u, v, matrix_reals(d), zero, one)
}

/// The operator `O` on dual numbers is linearized by `tangent`: evaluated on
/// `u + v·ε` with a constant differentiation matrix, its derivative part is
/// `tangent(row, x, u, v, d, zero, one)`, the directional derivative at `u` in
/// direction `v`, at every row.
pub open spec fn linearized_by<T: Arith, O: ODE<Dual<T>>>(
    tangent: spec_fn(int, T, Seq<T>, Seq<T>, Seq<Seq<T>>, T, T) -> T,
) -> bool {
    forall|row: int, x: Dual<T>, u: Seq<T>, v: Seq<T>, d: Seq<Seq<Dual<T>>>, zero: T, one: T|
        #[trigger] linearized_at::<T, O>(tangent, row, x, u, v, d, zero, one)
}

/// The value and derivative parts at one row of `u + v·ε` and of its two
/// collocation derivatives, with a constant matrix.
proof fn lemma_row_tangent<T: Arith>(row: int, u: Seq<T>, v: Seq<T>, d: Seq<Seq<Dual<T>>>, zero: T)
    requires
        0 <= row < u.len(),
        v.len() == u.len(),
        d.len() == u.len(),
        zero_identities(zero),
        constant_matrix(d, zero),
    ensures
        with_eps(u, v)[row] == (Dual { real: u[row], eps: v[row] }),
        first_derivative(with_eps(u, v), d, Dual { real: zero, eps: zero })[row].real
            == first_derivative(u, matrix_reals(d), zero)[row],
        second_derivative(with_eps(u, v), d, Dual { real: zero, eps: zero })[row].real
            == second_derivative(u, matrix_reals(d), zero)[row],
        first_derivative(with_eps(u, v), d, Dual { real: zero, eps: zero })[row].eps
            == first_derivative(v, matrix_reals(d), zero)[row],
        second_derivative(with_eps(u, v), d, Dual { real: zero, eps: zero })[row].eps
            == second_derivative(v, matrix_reals(d), zero)[row],
{
    let z = Dual { real: zero, eps: zero };
    let w = with_eps(u, v);
    lemma_derivatives_tangent(u, v, d, zero);
    let fd = first_derivative(w, d, z);
    let sd = second_derivative(w, d, z);
    assert(reals(fd)[row] == fd[row].real);
    assert(reals(sd)[row] == sd[row].real);
    assert(eps_parts(fd)[row] == fd[row].eps);
    assert(eps_parts(sd)[row] == sd[row].eps);
}

/// Derivative of `u'' + u·u'` in direction `v`: `v'' + (u·v' + v·u')`.
pub open spec fn burgers_tangent<T: Arith>(row: int, x: T, u: Seq<T>, v: Seq<T>, d: Seq<Seq<T>>, zero: T, one: T) -> T {
    second_derivative(v, d, zero)[row].add_spec(
        u[row].mul_spec(first_derivative(v, d, zero)[row]).add_spec(
            v[row].mul_spec(first_derivative(u, d, zero)[row]),
        ),
    )
}

/// Derivative of `u'' + u²` in direction `v`: `v'' + (u·v + v·u)`.
pub open spec fn nonlinear_diffusion_tangent<T: Arith>(row: int, x: T, u: Seq<T>, v: Seq<T>, d: Seq<Seq<T>>, zero: T, one: T) -> T {
    second_derivative(v, d, zero)[row].add_spec(u[row].mul_spec(v[row]).add_spec(v[row].mul_spec(u[row])))
}

/// Derivative of `u'' + u·(1 − u)` in direction `v`: `v'' + (u·(0 − v) + v·(1 − u))`.
pub open spec fn fisher_tangent<T: Arith>(row: int, x: T, u: Seq<T>, v: Seq<T>, d: Seq<Seq<T>>, zero: T, one: T) -> T {
    second_derivative(v, d, zero)[row].add_spec(
        u[row].mul_spec(zero.sub_spec(v[row])).add_spec(v[row].mul_spec(one.sub_spec(u[row]))),
    )
}

/// Derivative of `u''·(1 − u) + u'` in direction `v`: `(u''·(0 − v) + v''·(1 − u)) + v'`.
pub open spec fn convection_diffusion_tangent<T: Arith>(row: int, x: T, u: Seq<T>, v: Seq<T>, d: Seq<Seq<T>>, zero: T, one: T) -> T {
    second_derivative(u, d, zero)[row].mul_spec(zero.sub_spec(v[row])).add_spec(
        second_derivative(v, d, zero)[row].mul_spec(one.sub_spec(u[row])),
    ).add_spec(first_derivative(v, d, zero)[row])
}

/// Derivative of `u''` in direction `v`: `v''`.
pub open spec fn poisson_tangent<T: Arith>(row: int, x: T, u: Seq<T>, v: Seq<T>, d: Seq<Seq<T>>, zero: T, one: T) -> T {
    second_derivative(v, d, zero)[row]
}

/// Derivative of `u³` in direction `v`, as `(u·u)·u` differentiates:
/// `(u·u)·v + (u·v + v·u)·u`.
pub open spec fn cube_tangent<T: Arith>(a: T, b: T) -> T {
    a.mul_spec(a).mul_spec(b).add_spec(a.mul_spec(b).add_spec(b.mul_spec(a)).mul_spec(a))
}

/// Derivative of `u'' − (u³ − u)` in direction `v`: `v'' − ((u³)'·v − v)`.
pub open spec fn allen_cahn_tangent<T: Arith>(row: int, x: T, u: Seq<T>, v: Seq<T>, d: Seq<Seq<T>>, zero: T, one: T) -> T {
    second_derivative(v, d, zero)[row].sub_spec(cube_tangent(u[row], v[row]).sub_spec(v[row]))
}

/// Derivative of `u'' − u²` in direction `v`: `v'' − (u·v + v·u)`.
pub open spec fn quadratic_nonlinear_tangent<T: Arith>(row: int, x: T, u: Seq<T>, v: Seq<T>, d: Seq<Seq<T>>, zero: T, one: T) -> T {
    second_derivative(v, d, zero)[row].sub_spec(u[row].mul_spec(v[row]).add_spec(v[row].mul_spec(u[row])))
}

/// Derivative of `u'' + u + u³` in direction `v`: `(v'' + v) + (u³)'·v`.
pub open spec fn duffing_tangent<T: Arith>(row: int, x: T, u: Seq<T>, v: Seq<T>, d: Seq<Seq<T>>, zero: T, one: T) -> T {
    second_derivative(v, d, zero)[row].add_spec(v[row]).add_spec(cube_tangent(u[row], v[row]))
}


/// Automatic differentiation of the Burgers operator computes its derivative
/// `burgers_tangent`.
pub proof fn lemma_burgers_linearized<T: Arith>()
    ensures
        linearized_by::<T, BurgersODE>(
            |row: int, x: T, u: Seq<T>, v: Seq<T>, d: Seq<Seq<T>>, zero: T, one: T|
                burgers_tangent(row, x, u, v, d, zero, one),
        ),
{
    let tangent = |row: int, x: T, u: Seq<T>, v: Seq<T>, d: Seq<Seq<T>>, zero: T, one: T|
        burgers_tangent(row, x, u, v, d, zero, one);
    assert forall|row: int, x: Dual<T>, u: Seq<T>, v: Seq<T>, d: Seq<Seq<Dual<T>>>, zero: T, one: T|
        #[trigger] linearized_at::<T, BurgersODE>(tangent, row, x, u, v, d, zero, one) by {
        if 0 <= row < u.len() && v.len() == u.len() && d.len() == u.len() && constant_matrix(d, zero)
            && zero_identities(zero) {
            lemma_row_tangent(row, u, v, d, zero);
        }
    }
}

/// Automatic differentiation of the nonlinear diffusion operator computes its derivative
/// `nonlinear_diffusion_tangent`.
pub proof fn lemma_nonlinear_diffusion_linearized<T: Arith>()
    ensures
        linearized_by::<T, NonlinearDiffusionODE>(
            |row: int, x: T, u: Seq<T>, v: Seq<T>, d: Seq<Seq<T>>, zero: T, one: T|
                nonlinear_diffusion_tangent(row, x, u, v, d, zero, one),
        ),
{
    let tangent = |row: int, x: T, u: Seq<T>, v: Seq<T>, d: Seq<Seq<T>>, zero: T, one: T|
        nonlinear_diffusion_tangent(row, x, u, v, d, zero, one);
    assert forall|row: int, x: Dual<T>, u: Seq<T>, v: Seq<T>, d: Seq<Seq<Dual<T>>>, zero: T, one: T|
        #[trigger] linearized_at::<T, NonlinearDiffusionODE>(tangent, row, x, u, v, d, zero, one) by {
        if 0 <= row < u.len() && v.len() == u.len() && d.len() == u.len() && constant_matrix(d, zero)
            && zero_identities(zero) {
            lemma_row_tangent(row, u, v, d, zero);
        }
    }
}

/// Automatic differentiation of the Fisher operator computes its derivative
/// `fisher_tangent`.
pub proof fn lemma_fisher_linearized<T: Arith>()
    ensures
        linearized_by::<T, FisherODE>(
            |row: int, x: T, u: Seq<T>, v: Seq<T>, d: Seq<Seq<T>>, zero: T, one: T|
                fisher_tangent(row, x, u, v, d, zero, one),
        ),
{
    let tangent = |row: int, x: T, u: Seq<T>, v: Seq<T>, d: Seq<Seq<T>>, zero: T, one: T|
        fisher_tangent(row, x, u, v, d, zero, one);
    assert forall|row: int, x: Dual<T>, u: Seq<T>, v: Seq<T>, d: Seq<Seq<Dual<T>>>, zero: T, one: T|
        #[trigger] linearized_at::<T, FisherODE>(tangent, row, x, u, v, d, zero, one) by {
        if 0 <= row < u.len() && v.len() == u.len() && d.len() == u.len() && constant_matrix(d, zero)
            && zero_identities(zero) {
            lemma_row_tangent(row, u, v, d, zero);
        }
    }
}

/// Automatic differentiation of the convection–diffusion operator computes its derivative
/// `convection_diffusion_tangent`.
pub proof fn lemma_convection_diffusion_linearized<T: Arith>()
    ensures
        linearized_by::<T, ConvectionDiffusionODE>(
            |row: int, x: T, u: Seq<T>, v: Seq<T>, d: Seq<Seq<T>>, zero: T, one: T|
                convection_diffusion_tangent(row, x, u, v, d, zero, one),
        ),
{
    let tangent = |row: int, x: T, u: Seq<T>, v: Seq<T>, d: Seq<Seq<T>>, zero: T, one: T|
        convection_diffusion_tangent(row, x, u, v, d, zero, one);
    assert forall|row: int, x: Dual<T>, u: Seq<T>, v: Seq<T>, d: Seq<Seq<Dual<T>>>, zero: T, one: T|
        #[trigger] linearized_at::<T, ConvectionDiffusionODE>(tangent, row, x, u, v, d, zero, one) by {
        if 0 <= row < u.len() && v.len() == u.len() && d.len() == u.len() && constant_matrix(d, zero)
            && zero_identities(zero) {
            lemma_row_tangent(row, u, v, d, zero);
        }
    }
}

/// Automatic differentiation of the Poisson operator computes its derivative
/// `poisson_tangent`.
pub proof fn lemma_poisson_linearized<T: Arith>()
    ensures
        linearized_by::<T, PoissonODE>(
            |row: int, x: T, u: Seq<T>, v: Seq<T>, d: Seq<Seq<T>>, zero: T, one: T|
                poisson_tangent(row, x, u, v, d, zero, one),
        ),
{
    let tangent = |row: int, x: T, u: Seq<T>, v: Seq<T>, d: Seq<Seq<T>>, zero: T, one: T|
        poisson_tangent(row, x, u, v, d, zero, one);
    assert forall|row: int, x: Dual<T>, u: Seq<T>, v: Seq<T>, d: Seq<Seq<Dual<T>>>, zero: T, one: T|
        #[trigger] linearized_at::<T, PoissonODE>(tangent, row, x, u, v, d, zero, one) by {
        if 0 <= row < u.len() && v.len() == u.len() && d.len() == u.len() && constant_matrix(d, zero)
            && zero_identities(zero) {
            lemma_row_tangent(row, u, v, d, zero);
        }
    }
}

/// Automatic differentiation of the Allen–Cahn operator computes its derivative
/// `allen_cahn_tangent`.
pub proof fn lemma_allen_cahn_linearized<T: Arith>()
    ensures
        linearized_by::<T, AllenCahnODE>(
            |row: int, x: T, u: Seq<T>, v: Seq<T>, d: Seq<Seq<T>>, zero: T, one: T|
                allen_cahn_tangent(row, x, u, v, d, zero, one),
        ),
{
    let tangent = |row: int, x: T, u: Seq<T>, v: Seq<T>, d: Seq<Seq<T>>, zero: T, one: T|
        allen_cahn_tangent(row, x, u, v, d, zero, one);
    assert forall|row: int, x: Dual<T>, u: Seq<T>, v: Seq<T>, d: Seq<Seq<Dual<T>>>, zero: T, one: T|
        #[trigger] linearized_at::<T, AllenCahnODE>(tangent, row, x, u, v, d, zero, one) by {
        if 0 <= row < u.len() && v.len() == u.len() && d.len() == u.len() && constant_matrix(d, zero)
            && zero_identities(zero) {
            lemma_row_tangent(row, u, v, d, zero);
        }
    }
}

/// Automatic differentiation of the quadratic-nonlinearity operator computes its derivative
/// `quadratic_nonlinear_tangent`.
pub proof fn lemma_quadratic_nonlinear_linearized<T: Arith>()
    ensures
        linearized_by::<T, QuadraticNonlinearODE>(
            |row: int, x: T, u: Seq<T>, v: Seq<T>, d: Seq<Seq<T>>, zero: T, one: T|
                quadratic_nonlinear_tangent(row, x, u, v, d, zero, one),
        ),
{
    let tangent = |row: int, x: T, u: Seq<T>, v: Seq<T>, d: Seq<Seq<T>>, zero: T, one: T|
        quadratic_nonlinear_tangent(row, x, u, v, d, zero, one);
    assert forall|row: int, x: Dual<T>, u: Seq<T>, v: Seq<T>, d: Seq<Seq<Dual<T>>>, zero: T, one: T|
        #[trigger] linearized_at::<T, QuadraticNonlinearODE>(tangent, row, x, u, v, d, zero, one) by {
        if 0 <= row < u.len() && v.len() == u.len() && d.len() == u.len() && constant_matrix(d, zero)
            && zero_identities(zero) {
            lemma_row_tangent(row, u, v, d, zero);
        }
    }
}

/// Automatic differentiation of the Duffing operator computes its derivative
/// `duffing_tangent`.
pub proof fn lemma_duffing_linearized<T: Arith>()
    ensures
        linearized_by::<T, DuffingODE>(
            |row: int, x: T, u: Seq<T>, v: Seq<T>, d: Seq<Seq<T>>, zero: T, one: T|
                duffing_tangent(row, x, u, v, d, zero, one),
        ),
{
    let tangent = |row: int, x: T, u: Seq<T>, v: Seq<T>, d: Seq<Seq<T>>, zero: T, one: T|
        duffing_tangent(row, x, u, v, d, zero, one);
    assert forall|row: int, x: Dual<T>, u: Seq<T>, v: Seq<T>, d: Seq<Seq<Dual<T>>>, zero: T, one: T|
        #[trigger] linearized_at::<T, DuffingODE>(tangent, row, x, u, v, d, zero, one) by {
        if 0 <= row < u.len() && v.len() == u.len() && d.len() == u.len() && constant_matrix(d, zero)
            && zero_identities(zero) {
            lemma_row_tangent(row, u, v, d, zero);
        }
    }
}


/// Derivative of the traveling-front operator in direction `v`, as its dual
/// form differentiates: with `s`, `½` and `δ̄` from `front_constants`,
/// `(u·v + v·(u − s))·(−s) − v + ((u·u)·v + (u·v + v·u)·(u − s))·½
/// + ((u − s)·v'' + v·u'')·δ̄ − ((u − s)·v' + v·u')·δ̄`.
pub open spec fn important_tangent<T: FieldOps>(row: int, x: T, u: Seq<T>, v: Seq<T>, d: Seq<Seq<T>>, zero: T, one: T) -> T {
    let (half, s, delta) = front_constants(one);
    let a = u[row];
    let b = v[row];
    let us = a.sub_spec(s);
    let t1 = a.mul_spec(b).add_spec(b.mul_spec(us)).mul_spec(s.neg_spec());
    let t2 = a.mul_spec(a).mul_spec(b).add_spec(a.mul_spec(b).add_spec(b.mul_spec(a)).mul_spec(us)).mul_spec(half);
    let t3 = us.mul_spec(second_derivative(v, d, zero)[row]).add_spec(b.mul_spec(second_derivative(u, d, zero)[row])).mul_spec(
        delta,
    );
    let t4 = us.mul_spec(first_derivative(v, d, zero)[row]).add_spec(b.mul_spec(first_derivative(u, d, zero)[row])).mul_spec(
        delta,
    );
    t1.sub_spec(b).add_spec(t2).add_spec(t3).sub_spec(t4)
}

/// Automatic differentiation of the traveling-front operator computes its
/// derivative `important_tangent`.
pub proof fn lemma_important_linearized<T: FieldOps>()
    ensures
        linearized_by::<T, ImportantOde>(
            |row: int, x: T, u: Seq<T>, v: Seq<T>, d: Seq<Seq<T>>, zero: T, one: T|
                important_tangent(row, x, u, v, d, zero, one),
        ),
{
    let tangent = |row: int, x: T, u: Seq<T>, v: Seq<T>, d: Seq<Seq<T>>, zero: T, one: T|
        important_tangent(row, x, u, v, d, zero, one);
    assert forall|row: int, x: Dual<T>, u: Seq<T>, v: Seq<T>, d: Seq<Seq<Dual<T>>>, zero: T, one: T|
        #[trigger] linearized_at::<T, ImportantOde>(tangent, row, x, u, v, d, zero, one) by {
        if 0 <= row < u.len() && v.len() == u.len() && d.len() == u.len() && constant_matrix(d, zero)
            && zero_identities(zero) {
            lemma_row_tangent(row, u, v, d, zero);
        }
    }
}

/// The derivative of a boundary condition's residual in direction `v`: `v` at the
/// endpoint (Dirichlet) or `d·v` there (Neumann).
pub open spec fn bc_tangent<T: Arith>(bc: BoundaryCondition<T>, v: Seq<T>, d: Seq<Seq<T>>, endpoint: Endpoint, zero: T) -> T {
    let idx = endpoint_index(endpoint, v.len());
    match bc {
        BoundaryCondition::Dirichlet(_) => v[idx],
        BoundaryCondition::Neumann(_) => mat_vec(d, v, zero)[idx],
    }
}

/// The derivative of row `r` of interval `i` of the residual at `u` in
/// direction `v`, where `tangent` is the derivative of the operator.
pub open spec fn tangent_entry<T: Arith>(
    u: Seq<T>,
    v: Seq<T>,
    domain: &CollocationDomain<T>,
    bc_left: BoundaryCondition<T>,
    bc_right: BoundaryCondition<T>,
    tangent: spec_fn(int, T, Seq<T>, Seq<T>, Seq<Seq<T>>, T, T) -> T,
    zero: T,
    one: T,
    i: int,
    r: int,
) -> T {
    let n_per = domain.n_per() as int;
    let n_int = domain.n_intervals() as int;
    let u_i = block(u, i, n_per);
    let v_i = block(v, i, n_per);
    let d_i = domain.dmatrix_of(i);
    if i == 0 && r == 0 {
        bc_tangent(bc_left, v_i, d_i, Endpoint::Left, zero)
    } else if i == n_int - 1 && r == n_per - 1 {
        bc_tangent(bc_right, v_i, d_i, Endpoint::Right, zero)
    } else if r == n_per - 1 {
        mat_vec(d_i, v_i, zero)[n_per - 1].sub_spec(
            mat_vec(domain.dmatrix_of(i + 1), block(v, i + 1, n_per), zero)[0],
        )
    } else if r == 0 {
        block(v, i - 1, n_per)[n_per - 1].sub_spec(v_i[0])
    } else {
        tangent(r, domain.points_of(i)[r], u_i, v_i, d_i, zero, one)
    }
}

/// The derivative of the collocation residual at `u` in direction `v`: the
/// linearization of every row's equation.
pub open spec fn residual_tangent<T: Arith>(
    u: Seq<T>,
    v: Seq<T>,
    domain: &CollocationDomain<T>,
    bc_left: BoundaryCondition<T>,
    bc_right: BoundaryCondition<T>,
    tangent: spec_fn(int, T, Seq<T>, Seq<T>, Seq<Seq<T>>, T, T) -> T,
    zero: T,
    one: T,
) -> Seq<T> {
    let n_per = domain.n_per() as int;
    Seq::new(
        domain.n_intervals() * domain.n_per(),
        |g: int| tangent_entry(u, v, domain, bc_left, bc_right, tangent, zero, one, g / n_per, g % n_per),
    )
}

/// Every point, matrix entry, forcing value and boundary value of the dual
/// problem is a constant.
pub open spec fn constant_problem<T>(
    dd: &CollocationDomain<Dual<T>>,
    fd: Option<&Vec<Vec<Dual<T>>>>,
    bld: BoundaryCondition<Dual<T>>,
    brd: BoundaryCondition<Dual<T>>,
    zero: T,
) -> bool {
    &&& forall|i: int| 0 <= i < dd.n_intervals() ==> constant_matrix(#[trigger] dd.dmatrix_of(i), zero)
    &&& (fd matches Some(f) ==> forall|i: int, r: int|
        0 <= i < dd.n_intervals() && 0 <= r < dd.n_per() ==> (#[trigger] f@[i]@[r]).eps == zero)
    &&& match bld {
        BoundaryCondition::Dirichlet(x) => x.eps == zero,
        BoundaryCondition::Neumann(x) => x.eps == zero,
    }
    &&& match brd {
        BoundaryCondition::Dirichlet(x) => x.eps == zero,
        BoundaryCondition::Neumann(x) => x.eps == zero,
    }
}

proof fn lemma_block_with_eps<T>(u: Seq<T>, v: Seq<T>, i: int, n_per: int)
    requires
        0 <= i * n_per,
        i * n_per + n_per <= u.len(),
        u.len() == v.len(),
        0 <= n_per,
    ensures
        block(with_eps(u, v), i, n_per) == with_eps(block(u, i, n_per), block(v, i, n_per)),
{
    assert(block(with_eps(u, v), i, n_per) =~= with_eps(block(u, i, n_per), block(v, i, n_per)));
}

proof fn lemma_bc_tangent<T: Arith>(
    bd: BoundaryCondition<Dual<T>>,
    b: BoundaryCondition<T>,
    u: Seq<T>,
    v: Seq<T>,
    d: Seq<Seq<Dual<T>>>,
    endpoint: Endpoint,
    zero: T,
)
    requires
        bc_projects(bd, b),
        match bd {
            BoundaryCondition::Dirichlet(x) => x.eps == zero,
            BoundaryCondition::Neumann(x) => x.eps == zero,
        },
        u.len() >= 1,
        v.len() == u.len(),
        d.len() == u.len(),
        zero_identities(zero),
        constant_matrix(d, zero),
    ensures
        bd.residual_spec(with_eps(u, v), d, endpoint, Dual { real: zero, eps: zero }).eps == bc_tangent(
            b,
            v,
            matrix_reals(d),
            endpoint,
            zero,
        ),
{
    let z = Dual { real: zero, eps: zero };
    let w = with_eps(u, v);
    let idx = endpoint_index(endpoint, u.len());
    assert(eps_parts(w) =~= v);
    lemma_mat_vec_eps(d, w, zero);
    assert(eps_parts(mat_vec(d, w, z))[idx] == mat_vec(d, w, z)[idx].eps);
    assert(w[idx] == Dual { real: u[idx], eps: v[idx] });
}

/// Automatic differentiation computes the derivative of the residual: evaluated
/// on `u + v·ε`, with every datum of the problem a constant, the residual's
/// derivative parts are its derivative at `u` in direction `v`, for an operator
/// linearized by `tangent` and a scalar type where `zero` is absorbing and neutral.
pub proof fn lemma_residual_linearized<T: Arith, O: ODE<Dual<T>>>(
    tangent: spec_fn(int, T, Seq<T>, Seq<T>, Seq<Seq<T>>, T, T) -> T,
    u: Seq<T>,
    v: Seq<T>,
    dd: &CollocationDomain<Dual<T>>,
    fd: Option<&Vec<Vec<Dual<T>>>>,
    bld: BoundaryCondition<Dual<T>>,
    brd: BoundaryCondition<Dual<T>>,
    d: &CollocationDomain<T>,
    bl: BoundaryCondition<T>,
    br: BoundaryCondition<T>,
    zero: T,
    one: T,
)
    requires
        linearized_by::<T, O>(tangent),
        zero_identities(zero),
        dd.wf(),
        forcing_fits(fd, dd),
        domain_projects(dd, d),
        constant_problem(dd, fd, bld, brd, zero),
        bc_projects(bld, bl),
        bc_projects(brd, br),
        u.len() == v.len(),
        u.len() >= dd.n_intervals() * dd.n_per(),
    ensures
        eps_parts(
            residual_spec::<Dual<T>, O>(
                with_eps(u, v),
                dd,
                fd,
                bld,
                brd,
                Dual { real: zero, eps: zero },
                Dual { real: one, eps: zero },
            ),
        ) == residual_tangent(u, v, d, bl, br, tangent, zero, one),
{
    let zd = Dual { real: zero, eps: zero };
    let od = Dual { real: one, eps: zero };
    let n_per = dd.n_per() as int;
    let n_int = dd.n_intervals() as int;
    let w = with_eps(u, v);
    assert(reals(dd.points_of(0)) == d.points_of(0));
    assert(d.n_per() == dd.n_per());
    let lhs = eps_parts(residual_spec::<Dual<T>, O>(w, dd, fd, bld, brd, zd, od));
    let rhs = residual_tangent(u, v, d, bl, br, tangent, zero, one);
    assert forall|g: int| 0 <= g < n_int * n_per implies #[trigger] lhs[g] == rhs[g] by {
        lemma_row_of(g, n_per, n_int);
        let i = g / n_per;
        let r = g % n_per;
        assert(reals(dd.points_of(i)) == d.points_of(i));
        assert(constant_matrix(dd.dmatrix_of(i), zero));
        lemma_block_with_eps(u, v, i, n_per);
        let u_i = block(u, i, n_per);
        let v_i = block(v, i, n_per);
        let w_i = block(w, i, n_per);
        let d_i = dd.dmatrix_of(i);
        assert(d_i.len() == n_per && rectangular(d_i, n_per as nat));
        if i == 0 && r == 0 {
            lemma_bc_tangent(bld, bl, u_i, v_i, d_i, Endpoint::Left, zero);
        } else if i == n_int - 1 && r == n_per - 1 {
            lemma_bc_tangent(brd, br, u_i, v_i, d_i, Endpoint::Right, zero);
        } else if r == n_per - 1 {
            assert(reals(dd.points_of(i + 1)) == d.points_of(i + 1));
            assert(constant_matrix(dd.dmatrix_of(i + 1), zero));
            lemma_block_with_eps(u, v, i + 1, n_per);
            let w_n = block(w, i + 1, n_per);
            assert(eps_parts(w_i) =~= v_i);
            assert(eps_parts(w_n) =~= block(v, i + 1, n_per));
            lemma_mat_vec_eps(d_i, w_i, zero);
            lemma_mat_vec_eps(dd.dmatrix_of(i + 1), w_n, zero);
            assert(eps_parts(mat_vec(d_i, w_i, zd))[n_per - 1] == mat_vec(d_i, w_i, zd)[n_per - 1].eps);
            assert(eps_parts(mat_vec(dd.dmatrix_of(i + 1), w_n, zd))[0] == mat_vec(
                dd.dmatrix_of(i + 1),
                w_n,
                zd,
            )[0].eps);
        } else if r == 0 {
            lemma_block_with_eps(u, v, i - 1, n_per);
            assert(block(w, i - 1, n_per)[n_per - 1] == Dual {
                real: block(u, i - 1, n_per)[n_per - 1],
                eps: block(v, i - 1, n_per)[n_per - 1],
            });
            assert(w_i[0] == Dual { real: u_i[0], eps: v_i[0] });
        } else {
            let x = dd.points_of(i)[r];
            assert(reals(dd.points_of(i))[r] == x.real);
            assert(linearized_at::<T, O>(tangent, r, x, u_i, v_i, d_i, zero, one));
            assert((<O as ODE<Dual<T>>>::eval_spec(r, x, with_eps(u_i, v_i), d_i, zd, od)).eps == tangent(
                r,
                x.real,
                u_i,
                v_i,
                matrix_reals(d_i),
                zero,
                one,
            ));
            if let Some(f) = fd {
                assert(f@[i]@[r].eps == zero);
            }
        }
    }
    assert(lhs =~= rhs);
}

/// Column `k` of the Jacobian that automatic differentiation gives is the
/// derivative of the residual at `u` in the direction of the `k`-th unit vector.
pub proof fn lemma_jacobian_is_linearization<T: Arith, O: ODE<Dual<T>>>(
    tangent: spec_fn(int, T, Seq<T>, Seq<T>, Seq<Seq<T>>, T, T) -> T,
    u: Seq<T>,
    k: int,
    dd: &CollocationDomain<Dual<T>>,
    fd: Option<&Vec<Vec<Dual<T>>>>,
    bld: BoundaryCondition<Dual<T>>,
    brd: BoundaryCondition<Dual<T>>,
    d: &CollocationDomain<T>,
    bl: BoundaryCondition<T>,
    br: BoundaryCondition<T>,
    zero: T,
    one: T,
)
    requires
        linearized_by::<T, O>(tangent),
        zero_identities(zero),
        dd.wf(),
        forcing_fits(fd, dd),
        domain_projects(dd, d),
        constant_problem(dd, fd, bld, brd, zero),
        bc_projects(bld, bl),
        bc_projects(brd, br),
        u.len() == dd.n_intervals() * dd.n_per(),
    ensures
        eps_parts(dual_residual::<T, O>(seeded(u, k, zero, one), dd, fd, bld, brd, zero, one))
            == residual_tangent(u, unit(u.len(), k, zero, one), d, bl, br, tangent, zero, one),
{
    assert(seeded(u, k, zero, one) =~= with_eps(u, unit(u.len(), k, zero, one)));
    lemma_residual_linearized::<T, O>(
        tangent,
        u,
        unit(u.len(), k, zero, one),
        dd,
        fd,
        bld,
        brd,
        d,
        bl,
        br,
        zero,
        one,
    );
}

} // verus!
