//! The band structure of the collocation Jacobian: row `g` of the residual
//! involves only the values of its own interval and of its neighbours across an
//! interface, so the Jacobian vanishes more than `n_per` places off the diagonal.
use vstd::prelude::*;
use vstd::std_specs::ops::{AddSpec, MulSpec, NegSpec, SubSpec};
use crate::arith::{Arith, FieldOps};
use vstd::arithmetic::div_mod::lemma_fundamental_div_mod;
use crate::automatic_derivative::{ODE, block, forcing_fits};
use crate::boundary_conditions::{BoundaryCondition, Endpoint, endpoint_index};
use crate::dual::Dual;
use crate::jacobian::{dual_residual, seeded};
use crate::matrix::rectangular;
use crate::matrix_op::{dot_prefix, mat_vec};
use crate::multi_interval_domain::CollocationDomain;
use crate::primal::{bc_projects, domain_projects, lemma_row_of, matrix_reals, reals};
use crate::tangent::{
    allen_cahn_tangent, bc_tangent, burgers_tangent, constant_problem, convection_diffusion_tangent,
    cube_tangent, duffing_tangent, eps_parts, fisher_tangent, important_tangent, lemma_jacobian_is_linearization,
    linearized_by, nonlinear_diffusion_tangent, poisson_tangent, quadratic_nonlinear_tangent,
    residual_tangent, tangent_entry, unit, zero_identities,
};
use crate::test_odes::{first_derivative, front_constants, second_derivative};

verus! {

/// `n` copies of `zero`.
pub open spec fn zeros<T>(n: nat, zero: T) -> Seq<T> {
    Seq::new(n, |j: int| zero)
}

/// `zero` is absorbing for `·` on the left.
pub open spec fn zero_absorbs_left<T: Arith>(zero: T) -> bool {
    forall|a: T| #[trigger] zero.mul_spec(a) == zero
}

/// At one row: the derivative `tangent` vanishes in the direction `0`.
pub open spec fn flat_at<T: Arith>(
    tangent: spec_fn(int, T, Seq<T>, Seq<T>, Seq<Seq<T>>, T, T) -> T,
    row: int,
    x: T,
    u: Seq<T>,
    d: Seq<Seq<T>>,
    zero: T,
    one: T,
) -> bool {
    0 <= row < u.len() && d.len() == u.len() && rectangular(d, u.len()) ==> tangent(
        row,
        x,
        u,
        zeros(u.len(), zero),
        d,
        zero,
        one,
    ) == zero
}

/// The derivative `tangent` of an operator vanishes in the direction `0`, at
/// every row: the linearization is linear.
pub open spec fn flat_at_zero<T: Arith>(
    tangent: spec_fn(int, T, Seq<T>, Seq<T>, Seq<Seq<T>>, T, T) -> T,
    zero: T,
) -> bool {
    forall|row: int, x: T, u: Seq<T>, d: Seq<Seq<T>>, one: T| #[trigger] flat_at(tangent, row, x, u, d, zero, one)
}

proof fn lemma_dot_prefix_zeros<T: Arith>(row: Seq<T>, n: nat, k: int, zero: T)
    requires
        0 <= k <= n,
        zero_identities(zero),
        zero_absorbs_left(zero),
    ensures
        dot_prefix(row, zeros(n, zero), k, zero) == zero,
    decreases k,
{
    if k > 0 {
        lemma_dot_prefix_zeros(row, n, k - 1, zero);
        assert(zero.mul_spec(row[k - 1]) == zero);
        assert(zero.add_spec(zero) == zero);
    }
}

/// A matrix applied to zeros gives zeros, where `zero` absorbs and is neutral.
pub proof fn lemma_mat_vec_zeros<T: Arith>(d: Seq<Seq<T>>, n: nat, zero: T)
    requires
        zero_identities(zero),
        zero_absorbs_left(zero),
    ensures
        mat_vec(d, zeros(n, zero), zero) == zeros(d.len(), zero),
{
    assert forall|i: int| 0 <= i < d.len() implies #[trigger] mat_vec(d, zeros(n, zero), zero)[i] == zero by {
        let k = if d[i].len() <= n { d[i].len() } else { n };
        lemma_dot_prefix_zeros(d[i], n, k as int, zero);
    }
    assert(mat_vec(d, zeros(n, zero), zero) =~= zeros(d.len(), zero));
}

/// The two collocation derivatives of zeros, at one row.
pub proof fn lemma_derivatives_zeros<T: Arith>(row: int, d: Seq<Seq<T>>, n: nat, zero: T)
    requires
        0 <= row < d.len(),
        d.len() == n,
        zero_identities(zero),
        zero_absorbs_left(zero),
    ensures
        first_derivative(zeros(n, zero), d, zero)[row] == zero,
        second_derivative(zeros(n, zero), d, zero)[row] == zero,
{
    lemma_mat_vec_zeros(d, n, zero);
    lemma_mat_vec_zeros(d, d.len(), zero);
}

/// Each model derivative, in the direction `0`, at one row.
proof fn lemma_model_tangents_zero<T: Arith>(row: int, x: T, u: Seq<T>, d: Seq<Seq<T>>, zero: T, one: T)
    requires
        0 <= row < u.len(),
        d.len() == u.len(),
        zero_identities(zero),
        zero_absorbs_left(zero),
    ensures
        burgers_tangent(row, x, u, zeros(u.len(), zero), d, zero, one) == zero,
        nonlinear_diffusion_tangent(row, x, u, zeros(u.len(), zero), d, zero, one) == zero,
        fisher_tangent(row, x, u, zeros(u.len(), zero), d, zero, one) == zero,
        convection_diffusion_tangent(row, x, u, zeros(u.len(), zero), d, zero, one) == zero,
        poisson_tangent(row, x, u, zeros(u.len(), zero), d, zero, one) == zero,
        allen_cahn_tangent(row, x, u, zeros(u.len(), zero), d, zero, one) == zero,
        quadratic_nonlinear_tangent(row, x, u, zeros(u.len(), zero), d, zero, one) == zero,
        duffing_tangent(row, x, u, zeros(u.len(), zero), d, zero, one) == zero,
{
    let v = zeros(u.len(), zero);
    lemma_derivatives_zeros(row, d, u.len(), zero);
    let a = u[row];
    assert(v[row] == zero);
    assert(zero.add_spec(zero) == zero);
    assert(zero.sub_spec(zero) == zero);
    assert(a.mul_spec(zero) == zero);
    assert(zero.mul_spec(a) == zero);
    assert(zero.mul_spec(first_derivative(u, d, zero)[row]) == zero);
    assert(zero.mul_spec(one.sub_spec(a)) == zero);
    assert(second_derivative(u, d, zero)[row].mul_spec(zero) == zero);
    assert(a.mul_spec(a).mul_spec(zero) == zero);
    assert(cube_tangent(a, zero) == zero);
}

/// The derivatives of the model operators vanish in the direction `0`, where
/// `zero` absorbs on both sides and is neutral.
pub proof fn lemma_model_tangents_flat<T: Arith>(zero: T)
    requires
        zero_identities(zero),
        zero_absorbs_left(zero),
    ensures
        flat_at_zero(
            |row: int, x: T, u: Seq<T>, v: Seq<T>, d: Seq<Seq<T>>, zero: T, one: T|
                burgers_tangent(row, x, u, v, d, zero, one),
            zero,
        ),
        flat_at_zero(
            |row: int, x: T, u: Seq<T>, v: Seq<T>, d: Seq<Seq<T>>, zero: T, one: T|
                nonlinear_diffusion_tangent(row, x, u, v, d, zero, one),
            zero,
        ),
        flat_at_zero(
            |row: int, x: T, u: Seq<T>, v: Seq<T>, d: Seq<Seq<T>>, zero: T, one: T|
                fisher_tangent(row, x, u, v, d, zero, one),
            zero,
        ),
        flat_at_zero(
            |row: int, x: T, u: Seq<T>, v: Seq<T>, d: Seq<Seq<T>>, zero: T, one: T|
                convection_diffusion_tangent(row, x, u, v, d, zero, one),
            zero,
        ),
        flat_at_zero(
            |row: int, x: T, u: Seq<T>, v: Seq<T>, d: Seq<Seq<T>>, zero: T, one: T|
                poisson_tangent(row, x, u, v, d, zero, one),
            zero,
        ),
        flat_at_zero(
            |row: int, x: T, u: Seq<T>, v: Seq<T>, d: Seq<Seq<T>>, zero: T, one: T|
                allen_cahn_tangent(row, x, u, v, d, zero, one),
            zero,
        ),
        flat_at_zero(
            |row: int, x: T, u: Seq<T>, v: Seq<T>, d: Seq<Seq<T>>, zero: T, one: T|
                quadratic_nonlinear_tangent(row, x, u, v, d, zero, one),
            zero,
        ),
        flat_at_zero(
            |row: int, x: T, u: Seq<T>, v: Seq<T>, d: Seq<Seq<T>>, zero: T, one: T|
                duffing_tangent(row, x, u, v, d, zero, one),
            zero,
        ),
{
    let t1 = |row: int, x: T, u: Seq<T>, v: Seq<T>, d: Seq<Seq<T>>, zero: T, one: T|
        burgers_tangent(row, x, u, v, d, zero, one);
    let t2 = |row: int, x: T, u: Seq<T>, v: Seq<T>, d: Seq<Seq<T>>, zero: T, one: T|
        nonlinear_diffusion_tangent(row, x, u, v, d, zero, one);
    let t3 = |row: int, x: T, u: Seq<T>, v: Seq<T>, d: Seq<Seq<T>>, zero: T, one: T|
        fisher_tangent(row, x, u, v, d, zero, one);
    let t4 = |row: int, x: T, u: Seq<T>, v: Seq<T>, d: Seq<Seq<T>>, zero: T, one: T|
        convection_diffusion_tangent(row, x, u, v, d, zero, one);
    let t5 = |row: int, x: T, u: Seq<T>, v: Seq<T>, d: Seq<Seq<T>>, zero: T, one: T|
        poisson_tangent(row, x, u, v, d, zero, one);
    let t6 = |row: int, x: T, u: Seq<T>, v: Seq<T>, d: Seq<Seq<T>>, zero: T, one: T|
        allen_cahn_tangent(row, x, u, v, d, zero, one);
    let t7 = |row: int, x: T, u: Seq<T>, v: Seq<T>, d: Seq<Seq<T>>, zero: T, one: T|
        quadratic_nonlinear_tangent(row, x, u, v, d, zero, one);
    let t8 = |row: int, x: T, u: Seq<T>, v: Seq<T>, d: Seq<Seq<T>>, zero: T, one: T|
        duffing_tangent(row, x, u, v, d, zero, one);
    assert forall|row: int, x: T, u: Seq<T>, d: Seq<Seq<T>>, one: T|
        #![trigger flat_at(t1, row, x, u, d, zero, one)]
        #![trigger flat_at(t2, row, x, u, d, zero, one)]
        #![trigger flat_at(t3, row, x, u, d, zero, one)]
        #![trigger flat_at(t4, row, x, u, d, zero, one)]
        #![trigger flat_at(t5, row, x, u, d, zero, one)]
        #![trigger flat_at(t6, row, x, u, d, zero, one)]
        #![trigger flat_at(t7, row, x, u, d, zero, one)]
        #![trigger flat_at(t8, row, x, u, d, zero, one)]
        {
            &&& flat_at(t1, row, x, u, d, zero, one)
            &&& flat_at(t2, row, x, u, d, zero, one)
            &&& flat_at(t3, row, x, u, d, zero, one)
            &&& flat_at(t4, row, x, u, d, zero, one)
            &&& flat_at(t5, row, x, u, d, zero, one)
            &&& flat_at(t6, row, x, u, d, zero, one)
            &&& flat_at(t7, row, x, u, d, zero, one)
            &&& flat_at(t8, row, x, u, d, zero, one)
        } by {
        if 0 <= row < u.len() && d.len() == u.len() {
            lemma_model_tangents_zero(row, x, u, d, zero, one);
        }
    }
}

/// The derivative of the traveling-front operator vanishes in the direction
/// `0`, where `zero` absorbs on both sides and is neutral.
pub proof fn lemma_important_tangent_flat<T: FieldOps>(zero: T)
    requires
        zero_identities(zero),
        zero_absorbs_left(zero),
    ensures
        flat_at_zero(
            |row: int, x: T, u: Seq<T>, v: Seq<T>, d: Seq<Seq<T>>, zero: T, one: T|
                important_tangent(row, x, u, v, d, zero, one),
            zero,
        ),
{
    let t = |row: int, x: T, u: Seq<T>, v: Seq<T>, d: Seq<Seq<T>>, zero: T, one: T|
        important_tangent(row, x, u, v, d, zero, one);
    assert forall|row: int, x: T, u: Seq<T>, d: Seq<Seq<T>>, one: T| #[trigger] flat_at(t, row, x, u, d, zero, one) by {
        if 0 <= row < u.len() && d.len() == u.len() {
            let v = zeros(u.len(), zero);
            lemma_derivatives_zeros(row, d, u.len(), zero);
            let (half, s, delta) = front_constants(one);
            let a = u[row];
            let us = a.sub_spec(s);
            assert(v[row] == zero);
            assert(zero.add_spec(zero) == zero);
            assert(zero.sub_spec(zero) == zero);
            assert(a.mul_spec(zero) == zero);
            assert(zero.mul_spec(a) == zero);
            assert(zero.mul_spec(us) == zero);
            assert(us.mul_spec(zero) == zero);
            assert(a.mul_spec(a).mul_spec(zero) == zero);
            assert(zero.mul_spec(s.neg_spec()) == zero);
            assert(zero.mul_spec(half) == zero);
            assert(zero.mul_spec(delta) == zero);
            assert(zero.mul_spec(second_derivative(u, d, zero)[row]) == zero);
            assert(zero.mul_spec(first_derivative(u, d, zero)[row]) == zero);
        }
    }
}

proof fn lemma_unit_block_zero<T>(n: nat, k: int, i: int, p: int, zero: T, one: T)
    requires
        0 <= i * p,
        0 <= p,
        i * p + p <= n,
        k < i * p || k >= i * p + p,
    ensures
        block(unit(n, k, zero, one), i, p) == zeros(p as nat, zero),
{
    assert(block(unit(n, k, zero, one), i, p) =~= zeros(p as nat, zero));
}

proof fn lemma_bc_tangent_zeros<T: Arith>(bc: BoundaryCondition<T>, p: nat, d: Seq<Seq<T>>, endpoint: Endpoint, zero: T)
    requires
        p >= 1,
        d.len() == p,
        zero_identities(zero),
        zero_absorbs_left(zero),
    ensures
        bc_tangent(bc, zeros(p, zero), d, endpoint, zero) == zero,
{
    lemma_mat_vec_zeros(d, p, zero);
    let idx = endpoint_index(endpoint, p);
    assert(zeros(d.len(), zero)[idx] == zero);
}

/// The Jacobian that automatic differentiation gives is banded: with `n_per`
/// points per interval, entry `(g, k)` is `zero` wherever `k > g + n_per` or
/// `g > k + n_per`. Row `g` involves only the values of its own interval, and
/// at an interface those of the neighbouring interval; this holds for an operator
/// whose derivative `tangent` vanishes in the direction `0`, over a scalar type
/// where `zero` absorbs on both sides and is neutral.
pub proof fn lemma_jacobian_banded<T: Arith, O: ODE<Dual<T>>>(
    tangent: spec_fn(int, T, Seq<T>, Seq<T>, Seq<Seq<T>>, T, T) -> T,
    u: Seq<T>,
    g: int,
    k: int,
    dd: &CollocationDomain<Dual<T>>,
    fd: Option<&Vec<Vec<Dual<T>>>>,
    bld: BoundaryCondition<Dual<T>>,
    brd: BoundaryCondition<Dual<T>>,
    d: &CollocationDomain<T>,
    bl: BoundaryCondition<T>,
    br: BoundaryCondition<T>,
    zero: T,
    one: T,
)
    requires
        linearized_by::<T, O>(tangent),
        flat_at_zero(tangent, zero),
        zero_identities(zero),
        zero_absorbs_left(zero),
        dd.wf(),
        forcing_fits(fd, dd),
        domain_projects(dd, d),
        constant_problem(dd, fd, bld, brd, zero),
        bc_projects(bld, bl),
        bc_projects(brd, br),
        u.len() == dd.n_intervals() * dd.n_per(),
        0 <= g < u.len(),
        0 <= k < u.len(),
        k > g + dd.n_per() || g > k + dd.n_per(),
    ensures
        dual_residual::<T, O>(seeded(u, k, zero, one), dd, fd, bld, brd, zero, one)[g].eps == zero,
{
    lemma_jacobian_is_linearization::<T, O>(tangent, u, k, dd, fd, bld, brd, d, bl, br, zero, one);
    let n = u.len();
    let v = unit(n, k, zero, one);
    let p = dd.n_per() as int;
    let m = dd.n_intervals() as int;
    assert(reals(dd.points_of(0)) == d.points_of(0));
    assert(d.n_per() == dd.n_per());
    let res = dual_residual::<T, O>(seeded(u, k, zero, one), dd, fd, bld, brd, zero, one);
    assert(eps_parts(res)[g] == res[g].eps);
    let rt = residual_tangent(u, v, d, bl, br, tangent, zero, one);
    lemma_row_of(g, p, m);
    lemma_fundamental_div_mod(g, p);
    let i = g / p;
    let r = g % p;
    assert(p * i == i * p) by (nonlinear_arith);
    assert(rt[g] == tangent_entry(u, v, d, bl, br, tangent, zero, one, i, r));
    assert(reals(dd.points_of(i)) == d.points_of(i));
    assert(matrix_reals(dd.dmatrix_of(i)) == d.dmatrix_of(i));
    let d_i = d.dmatrix_of(i);
    assert(d_i.len() == p);
    assert forall|a: int| 0 <= a < d_i.len() implies #[trigger] d_i[a].len() == p by {
        assert(dd.intervals@[i].dmatrix.is_square(dd.n_per()));
        assert(reals(dd.dmatrix_of(i)[a]).len() == dd.dmatrix_of(i)[a].len());
    }
    if i == 0 && r == 0 {
        lemma_unit_block_zero(n, k, i, p, zero, one);
        lemma_bc_tangent_zeros(bl, p as nat, d_i, Endpoint::Left, zero);
    } else if i == m - 1 && r == p - 1 {
        lemma_unit_block_zero(n, k, i, p, zero, one);
        lemma_bc_tangent_zeros(br, p as nat, d_i, Endpoint::Right, zero);
    } else if r == p - 1 {
        lemma_unit_block_zero(n, k, i, p, zero, one);
        lemma_unit_block_zero(n, k, i + 1, p, zero, one);
        lemma_mat_vec_zeros(d_i, p as nat, zero);
        lemma_mat_vec_zeros(d.dmatrix_of(i + 1), p as nat, zero);
        assert(reals(dd.points_of(i + 1)) == d.points_of(i + 1));
        assert(matrix_reals(dd.dmatrix_of(i + 1)) == d.dmatrix_of(i + 1));
        assert(zeros(d_i.len(), zero)[p - 1] == zero);
        assert(zeros(d.dmatrix_of(i + 1).len(), zero)[0] == zero);
        assert(zero.sub_spec(zero) == zero);
    } else if r == 0 {
        assert(block(v, i - 1, p)[p - 1] == v[i * p - 1]);
        assert(block(v, i, p)[0] == v[i * p]);
        assert(zero.sub_spec(zero) == zero);
    } else {
        lemma_unit_block_zero(n, k, i, p, zero, one);
        let u_i = block(u, i, p);
        assert(flat_at(tangent, r, d.points_of(i)[r], u_i, d_i, zero, one));
    }
}

} // verus!
