//! The value parts of computations on dual numbers: evaluating on `x + x'ε`
//! computes, in the value part, exactly what evaluating on `x` computes.
use vstd::prelude::*;
use crate::arith::{Arith, FieldOps};
use vstd::std_specs::ops::{MulSpec, NegSpec, SubSpec};
use crate::dual::{Dual, constants};
use vstd::arithmetic::div_mod::lemma_fundamental_div_mod;
use crate::automatic_derivative::{ODE, block, forcing_fits, residual_spec};
use crate::boundary_conditions::{BoundaryCondition, Endpoint, endpoint_index};
use crate::jacobian::{as_constants, dual_residual, seeded};
use crate::multi_interval_domain::CollocationDomain;
use crate::matrix::rectangular;
use crate::matrix_op::{dot_prefix, mat_vec};
use crate::test_odes::{
    AllenCahnODE, BurgersODE, ConvectionDiffusionODE, DuffingODE, FisherODE, ImportantOde,
    NonlinearDiffusionODE, PoissonODE, QuadraticNonlinearODE, first_derivative, front_constants,
    second_derivative,
};

verus! {

/// The value parts of `v`.
pub open spec fn reals<T>(v: Seq<Dual<T>>) -> Seq<T> {
    Seq::new(v.len(), |i: int| v[i].real)
}

/// The value parts of every entry of `d`.
pub open spec fn matrix_reals<T>(d: Seq<Seq<Dual<T>>>) -> Seq<Seq<T>> {
    Seq::new(d.len(), |i: int| reals(d[i]))
}

proof fn lemma_dot_prefix_reals<T: Arith>(row: Seq<Dual<T>>, u: Seq<Dual<T>>, k: int, zero: Dual<T>)
    requires
        0 <= k <= row.len(),
        k <= u.len(),
    ensures
        dot_prefix(row, u, k, zero).real == dot_prefix(reals(row), reals(u), k, zero.real),
    decreases k,
{
    if k > 0 {
        lemma_dot_prefix_reals(row, u, k - 1, zero);
    }
}

/// The value part of a matrix–vector product on dual numbers is the product of
/// the value parts.
pub proof fn lemma_mat_vec_reals<T: Arith>(d: Seq<Seq<Dual<T>>>, u: Seq<Dual<T>>, zero: Dual<T>)
    ensures
        reals(mat_vec(d, u, zero)) == mat_vec(matrix_reals(d), reals(u), zero.real),
{
    assert forall|i: int| 0 <= i < d.len() implies #[trigger] reals(mat_vec(d, u, zero))[i] == mat_vec(
        matrix_reals(d),
        reals(u),
        zero.real,
    )[i] by {
        let row = d[i];
        let k = if row.len() <= u.len() { row.len() } else { u.len() };
        lemma_dot_prefix_reals(row, u, k as int, zero);
        assert(reals(row).len() == row.len());
    }
    assert(reals(mat_vec(d, u, zero)) =~= mat_vec(matrix_reals(d), reals(u), zero.real));
}


/// Taking values as constants and then their value parts gives the values back.
pub proof fn lemma_constants_reals<T>(v: Seq<T>, zero: T)
    ensures
        reals(constants(v, zero)) == v,
{
    assert(reals(constants(v, zero)) =~= v);
}

/// At one row: evaluating the operator `O` on dual numbers gives, in the value
/// part, what evaluating it on the value parts gives.
pub open spec fn keeps_values_at<T: Arith, O: ODE<T> + ODE<Dual<T>>>(
    row: int,
    x: Dual<T>,
    u: Seq<Dual<T>>,
    d: Seq<Seq<Dual<T>>>,
    zero: T,
    one: T,
) -> bool {
    0 <= row < u.len() && d.len() == u.len() && rectangular(d, u.len()) ==> (<O as ODE<
        Dual<T>,
    >>::eval_spec(row, x, u, d, Dual { real: zero, eps: zero }, Dual { real: one, eps: zero })).real
        == <O as ODE<T>>::eval_spec(row, x.real, reals(u), matrix_reals(d), zero, one)
}

/// Evaluating the operator `O` on dual numbers gives, in the value part, what
/// evaluating it on the value parts gives, at every row.
pub open spec fn keeps_values<T: Arith, O: ODE<T> + ODE<Dual<T>>>() -> bool {
    forall|row: int, x: Dual<T>, u: Seq<Dual<T>>, d: Seq<Seq<Dual<T>>>, zero: T, one: T|
        #[trigger] keeps_values_at::<T, O>(row, x, u, d, zero, one)
}

/// The first and second collocation derivatives of dual numbers have as value
/// parts the derivatives of the value parts.
pub proof fn lemma_derivatives_reals<T: Arith>(u: Seq<Dual<T>>, d: Seq<Seq<Dual<T>>>, zero: T)
    ensures
        reals(first_derivative(u, d, Dual { real: zero, eps: zero })) == first_derivative(
            reals(u),
            matrix_reals(d),
            zero,
        ),
        reals(second_derivative(u, d, Dual { real: zero, eps: zero })) == second_derivative(
            reals(u),
            matrix_reals(d),
            zero,
        ),
{
    let z = Dual { real: zero, eps: zero };
    lemma_mat_vec_reals(d, u, z);
    lemma_mat_vec_reals(d, mat_vec(d, u, z), z);
}

/// The value parts at one row of `u` and of its two collocation derivatives.
proof fn lemma_row_reals<T: Arith>(row: int, u: Seq<Dual<T>>, d: Seq<Seq<Dual<T>>>, zero: T)
    requires
        0 <= row < u.len(),
        d.len() == u.len(),
    ensures
        reals(u)[row] == u[row].real,
        first_derivative(u, d, Dual { real: zero, eps: zero })[row].real == first_derivative(
            reals(u),
            matrix_reals(d),
            zero,
        )[row],
        second_derivative(u, d, Dual { real: zero, eps: zero })[row].real == second_derivative(
            reals(u),
            matrix_reals(d),
            zero,
        )[row],
{
    let z = Dual { real: zero, eps: zero };
    lemma_derivatives_reals(u, d, zero);
    assert(reals(first_derivative(u, d, z))[row] == first_derivative(u, d, z)[row].real);
    assert(reals(second_derivative(u, d, z))[row] == second_derivative(u, d, z)[row].real);
}

/// The Burgers operator keeps values.
pub proof fn lemma_burgers_keeps_values<T: Arith>()
    ensures
        keeps_values::<T, BurgersODE>(),
{
    assert forall|row: int, x: Dual<T>, u: Seq<Dual<T>>, d: Seq<Seq<Dual<T>>>, zero: T, one: T|
        #[trigger] keeps_values_at::<T, BurgersODE>(row, x, u, d, zero, one) by {
        if 0 <= row < u.len() && d.len() == u.len() {
            lemma_row_reals(row, u, d, zero);
        }
    }
}

/// The nonlinear diffusion operator keeps values.
pub proof fn lemma_nonlinear_diffusion_keeps_values<T: Arith>()
    ensures
        keeps_values::<T, NonlinearDiffusionODE>(),
{
    assert forall|row: int, x: Dual<T>, u: Seq<Dual<T>>, d: Seq<Seq<Dual<T>>>, zero: T, one: T|
        #[trigger] keeps_values_at::<T, NonlinearDiffusionODE>(row, x, u, d, zero, one) by {
        if 0 <= row < u.len() && d.len() == u.len() {
            lemma_row_reals(row, u, d, zero);
        }
    }
}

/// The Fisher operator keeps values.
pub proof fn lemma_fisher_keeps_values<T: Arith>()
    ensures
        keeps_values::<T, FisherODE>(),
{
    assert forall|row: int, x: Dual<T>, u: Seq<Dual<T>>, d: Seq<Seq<Dual<T>>>, zero: T, one: T|
        #[trigger] keeps_values_at::<T, FisherODE>(row, x, u, d, zero, one) by {
        if 0 <= row < u.len() && d.len() == u.len() {
            lemma_row_reals(row, u, d, zero);
        }
    }
}

/// The convection–diffusion operator keeps values wherever `a·(one − b)` and
/// `a − b·a` agree, as they do when `one` is a unit of a commutative ring: its
/// dual form `u''·(1 − u) + u'` then has as value part its plain form
/// `u'' − u·u'' + u'`.
pub proof fn lemma_convection_diffusion_keeps_values<T: FieldOps>(zero: T, one: T)
    requires
        forall|a: T, b: T| #[trigger] a.mul_spec(one.sub_spec(b)) == a.sub_spec(b.mul_spec(a)),
    ensures
        forall|row: int, x: Dual<T>, u: Seq<Dual<T>>, d: Seq<Seq<Dual<T>>>|
            #[trigger] keeps_values_at::<T, ConvectionDiffusionODE>(row, x, u, d, zero, one),
{
    assert forall|row: int, x: Dual<T>, u: Seq<Dual<T>>, d: Seq<Seq<Dual<T>>>|
        #[trigger] keeps_values_at::<T, ConvectionDiffusionODE>(row, x, u, d, zero, one) by {
        if 0 <= row < u.len() && d.len() == u.len() {
            lemma_row_reals(row, u, d, zero);
            let z = Dual { real: zero, eps: zero };
            let a = second_derivative(u, d, z)[row].real;
            let b = u[row].real;
            assert(a.mul_spec(one.sub_spec(b)) == a.sub_spec(b.mul_spec(a)));
        }
    }
}

/// The traveling-front operator keeps values wherever `·` is commutative and
/// associative: the value part of its dual form
/// `(u·(u − s))·(−s) − u + ((u·u)·(u − s))·½ + ((u − s)·u'')·δ̄ − ((u − s)·u')·δ̄`
/// is then its plain form
/// `((−s)·u)·(u − s) − u + ((½·u)·u)·(u − s) + (δ̄·(u − s))·u'' − (δ̄·(u − s))·u'`.
pub proof fn lemma_important_keeps_values<T: FieldOps>(zero: T, one: T)
    requires
        forall|a: T, b: T| #[trigger] a.mul_spec(b) == b.mul_spec(a),
        forall|a: T, b: T, c: T| #[trigger] a.mul_spec(b).mul_spec(c) == a.mul_spec(b.mul_spec(c)),
    ensures
        forall|row: int, x: Dual<T>, u: Seq<Dual<T>>, d: Seq<Seq<Dual<T>>>|
            #[trigger] keeps_values_at::<T, ImportantOde>(row, x, u, d, zero, one),
{
    assert forall|row: int, x: Dual<T>, u: Seq<Dual<T>>, d: Seq<Seq<Dual<T>>>|
        #[trigger] keeps_values_at::<T, ImportantOde>(row, x, u, d, zero, one) by {
        if 0 <= row < u.len() && d.len() == u.len() {
            lemma_row_reals(row, u, d, zero);
            let z = Dual { real: zero, eps: zero };
            let (half, s, delta) = front_constants(one);
            let a = u[row].real;
            let us = a.sub_spec(s);
            let ns = s.neg_spec();
            let d1 = first_derivative(u, d, z)[row].real;
            let d2 = second_derivative(u, d, z)[row].real;
            assert(a.mul_spec(us).mul_spec(ns) == ns.mul_spec(a.mul_spec(us)));
            assert(ns.mul_spec(a).mul_spec(us) == ns.mul_spec(a.mul_spec(us)));
            assert(a.mul_spec(a).mul_spec(us).mul_spec(half) == half.mul_spec(a.mul_spec(a).mul_spec(us)));
            assert(half.mul_spec(a.mul_spec(a)).mul_spec(us) == half.mul_spec(a.mul_spec(a).mul_spec(us)));
            assert(half.mul_spec(a).mul_spec(a) == half.mul_spec(a.mul_spec(a)));
            assert(us.mul_spec(d2).mul_spec(delta) == delta.mul_spec(us.mul_spec(d2)));
            assert(delta.mul_spec(us).mul_spec(d2) == delta.mul_spec(us.mul_spec(d2)));
            assert(us.mul_spec(d1).mul_spec(delta) == delta.mul_spec(us.mul_spec(d1)));
            assert(delta.mul_spec(us).mul_spec(d1) == delta.mul_spec(us.mul_spec(d1)));
        }
    }
}

/// The Poisson operator keeps values.
pub proof fn lemma_poisson_keeps_values<T: Arith>()
    ensures
        keeps_values::<T, PoissonODE>(),
{
    assert forall|row: int, x: Dual<T>, u: Seq<Dual<T>>, d: Seq<Seq<Dual<T>>>, zero: T, one: T|
        #[trigger] keeps_values_at::<T, PoissonODE>(row, x, u, d, zero, one) by {
        if 0 <= row < u.len() && d.len() == u.len() {
            lemma_row_reals(row, u, d, zero);
        }
    }
}

/// The Allen–Cahn operator keeps values.
pub proof fn lemma_allen_cahn_keeps_values<T: Arith>()
    ensures
        keeps_values::<T, AllenCahnODE>(),
{
    assert forall|row: int, x: Dual<T>, u: Seq<Dual<T>>, d: Seq<Seq<Dual<T>>>, zero: T, one: T|
        #[trigger] keeps_values_at::<T, AllenCahnODE>(row, x, u, d, zero, one) by {
        if 0 <= row < u.len() && d.len() == u.len() {
            lemma_row_reals(row, u, d, zero);
        }
    }
}

/// The quadratic-nonlinearity operator keeps values.
pub proof fn lemma_quadratic_nonlinear_keeps_values<T: Arith>()
    ensures
        keeps_values::<T, QuadraticNonlinearODE>(),
{
    assert forall|row: int, x: Dual<T>, u: Seq<Dual<T>>, d: Seq<Seq<Dual<T>>>, zero: T, one: T|
        #[trigger] keeps_values_at::<T, QuadraticNonlinearODE>(row, x, u, d, zero, one) by {
        if 0 <= row < u.len() && d.len() == u.len() {
            lemma_row_reals(row, u, d, zero);
        }
    }
}

/// The Duffing operator keeps values.
pub proof fn lemma_duffing_keeps_values<T: Arith>()
    ensures
        keeps_values::<T, DuffingODE>(),
{
    assert forall|row: int, x: Dual<T>, u: Seq<Dual<T>>, d: Seq<Seq<Dual<T>>>, zero: T, one: T|
        #[trigger] keeps_values_at::<T, DuffingODE>(row, x, u, d, zero, one) by {
        if 0 <= row < u.len() && d.len() == u.len() {
            lemma_row_reals(row, u, d, zero);
        }
    }
}


/// The dual domain `dd` has the domain `d` as its value parts: the same intervals,
/// with points and differentiation matrices whose value parts are those of `d`.
pub open spec fn domain_projects<T>(dd: &CollocationDomain<Dual<T>>, d: &CollocationDomain<T>) -> bool {
    &&& dd.n_intervals() == d.n_intervals()
    &&& forall|i: int|
        0 <= i < dd.n_intervals() ==> {
            &&& reals(#[trigger] dd.points_of(i)) == d.points_of(i)
            &&& matrix_reals(dd.dmatrix_of(i)) == d.dmatrix_of(i)
        }
}

/// The dual forcing table `fd` has the table `f` as its value parts (or both are absent).
pub open spec fn forcing_projects<T>(
    fd: Option<&Vec<Vec<Dual<T>>>>,
    f: Option<&Vec<Vec<T>>>,
    n_int: int,
    n_per: int,
) -> bool {
    match fd {
        None => f is None,
        Some(a) => match f {
            None => false,
            Some(b) => forall|i: int, r: int|
                0 <= i < n_int && 0 <= r < n_per ==> (#[trigger] a@[i]@[r]).real == b@[i]@[r],
        },
    }
}

/// The dual boundary condition `bd` is `b` with a prescribed value whose value part is `b`'s.
pub open spec fn bc_projects<T>(bd: BoundaryCondition<Dual<T>>, b: BoundaryCondition<T>) -> bool {
    match bd {
        BoundaryCondition::Dirichlet(x) => b matches BoundaryCondition::Dirichlet(y) && x.real == y,
        BoundaryCondition::Neumann(x) => b matches BoundaryCondition::Neumann(y) && x.real == y,
    }
}

proof fn lemma_bc_reals<T: Arith>(
    bd: BoundaryCondition<Dual<T>>,
    b: BoundaryCondition<T>,
    u: Seq<Dual<T>>,
    d: Seq<Seq<Dual<T>>>,
    endpoint: Endpoint,
    zero: T,
)
    requires
        bc_projects(bd, b),
        u.len() >= 1,
        d.len() == u.len(),
    ensures
        bd.residual_spec(u, d, endpoint, Dual { real: zero, eps: zero }).real == b.residual_spec(
            reals(u),
            matrix_reals(d),
            endpoint,
            zero,
        ),
{
    let z = Dual { real: zero, eps: zero };
    let idx = endpoint_index(endpoint, u.len());
    lemma_mat_vec_reals(d, u, z);
    assert(reals(mat_vec(d, u, z))[idx] == mat_vec(d, u, z)[idx].real);
    assert(reals(u)[idx] == u[idx].real);
}

proof fn lemma_block_reals<T>(v: Seq<Dual<T>>, i: int, n_per: int)
    requires
        0 <= i * n_per,
        i * n_per + n_per <= v.len(),
        0 <= n_per,
    ensures
        reals(block(v, i, n_per)) == block(reals(v), i, n_per),
{
    assert(reals(block(v, i, n_per)) =~= block(reals(v), i, n_per));
}

pub proof fn lemma_row_of(g: int, n_per: int, n_int: int)
    requires
        0 <= g < n_int * n_per,
        n_per > 0,
    ensures
        0 <= g / n_per < n_int,
        0 <= g % n_per < n_per,
        0 <= (g / n_per) * n_per,
        (g / n_per) * n_per + n_per <= n_int * n_per,
        (g / n_per + 1) * n_per + n_per <= n_int * n_per || g / n_per == n_int - 1,
        g / n_per >= 1 ==> (g / n_per - 1) * n_per >= 0 && (g / n_per - 1) * n_per + n_per == (g / n_per) * n_per,
        g / n_per + 1 < n_int ==> (g / n_per + 1) * n_per == (g / n_per) * n_per + n_per,
{
    lemma_fundamental_div_mod(g, n_per);
    let i = g / n_per;
    let r = g % n_per;
    assert(0 <= i < n_int) by (nonlinear_arith)
        requires
            g == n_per * i + r,
            0 <= r < n_per,
            0 <= g < n_int * n_per,
    ;
    assert(0 <= i * n_per && i * n_per + n_per <= n_int * n_per) by (nonlinear_arith)
        requires
            0 <= i < n_int,
            n_per > 0,
    ;
    assert((i + 1) * n_per + n_per <= n_int * n_per || i == n_int - 1) by (nonlinear_arith)
        requires
            0 <= i < n_int,
            n_per > 0,
    ;
    assert(i >= 1 ==> (i - 1) * n_per >= 0 && (i - 1) * n_per + n_per == i * n_per) by (nonlinear_arith)
        requires
            0 <= i,
            n_per > 0,
    ;
    assert((i + 1) * n_per == i * n_per + n_per) by (nonlinear_arith);
}

/// The collocation residual evaluated on dual numbers has as value parts the
/// residual of the value parts, for operators that keep values: automatic
/// differentiation leaves the residual itself unchanged.
pub proof fn lemma_residual_keeps_values<T: Arith, O: ODE<T> + ODE<Dual<T>>>(
    v: Seq<Dual<T>>,
    dd: &CollocationDomain<Dual<T>>,
    fd: Option<&Vec<Vec<Dual<T>>>>,
    bld: BoundaryCondition<Dual<T>>,
    brd: BoundaryCondition<Dual<T>>,
    d: &CollocationDomain<T>,
    f: Option<&Vec<Vec<T>>>,
    bl: BoundaryCondition<T>,
    br: BoundaryCondition<T>,
    zero: T,
    one: T,
)
    requires
        keeps_values::<T, O>(),
        dd.wf(),
        forcing_fits(fd, dd),
        domain_projects(dd, d),
        forcing_projects(fd, f, dd.n_intervals() as int, dd.n_per() as int),
        bc_projects(bld, bl),
        bc_projects(brd, br),
        v.len() >= dd.n_intervals() * dd.n_per(),
    ensures
        reals(
            residual_spec::<Dual<T>, O>(
                v,
                dd,
                fd,
                bld,
                brd,
                Dual { real: zero, eps: zero },
                Dual { real: one, eps: zero },
            ),
        ) == residual_spec::<T, O>(reals(v), d, f, bl, br, zero, one),
{
    let zd = Dual { real: zero, eps: zero };
    let od = Dual { real: one, eps: zero };
    let n_per = dd.n_per() as int;
    let n_int = dd.n_intervals() as int;
    assert(reals(dd.points_of(0)) == d.points_of(0));
    assert(d.n_per() == dd.n_per());
    let lhs = reals(residual_spec::<Dual<T>, O>(v, dd, fd, bld, brd, zd, od));
    let rhs = residual_spec::<T, O>(reals(v), d, f, bl, br, zero, one);
    assert forall|g: int| 0 <= g < n_int * n_per implies #[trigger] lhs[g] == rhs[g] by {
        lemma_row_of(g, n_per, n_int);
        let i = g / n_per;
        let r = g % n_per;
        assert(reals(dd.points_of(i)) == d.points_of(i));
        lemma_block_reals(v, i, n_per);
        let u_i = block(v, i, n_per);
        let d_i = dd.dmatrix_of(i);
        assert(d_i.len() == n_per && rectangular(d_i, n_per as nat));
        if i == 0 && r == 0 {
            lemma_bc_reals(bld, bl, u_i, d_i, Endpoint::Left, zero);
        } else if i == n_int - 1 && r == n_per - 1 {
            lemma_bc_reals(brd, br, u_i, d_i, Endpoint::Right, zero);
        } else if r == n_per - 1 {
            assert(reals(dd.points_of(i + 1)) == d.points_of(i + 1));
            lemma_block_reals(v, i + 1, n_per);
            lemma_mat_vec_reals(d_i, u_i, zd);
            lemma_mat_vec_reals(dd.dmatrix_of(i + 1), block(v, i + 1, n_per), zd);
            assert(reals(mat_vec(d_i, u_i, zd))[n_per - 1] == mat_vec(d_i, u_i, zd)[n_per - 1].real);
            assert(reals(mat_vec(dd.dmatrix_of(i + 1), block(v, i + 1, n_per), zd))[0] == mat_vec(
                dd.dmatrix_of(i + 1),
                block(v, i + 1, n_per),
                zd,
            )[0].real);
        } else if r == 0 {
            lemma_block_reals(v, i - 1, n_per);
            assert(reals(block(v, i - 1, n_per))[n_per - 1] == block(v, i - 1, n_per)[n_per - 1].real);
            assert(reals(u_i)[0] == u_i[0].real);
        } else {
            let x = dd.points_of(i)[r];
            assert(reals(dd.points_of(i))[r] == x.real);
            assert(keeps_values_at::<T, O>(r, x, u_i, d_i, zero, one));
            assert((<O as ODE<Dual<T>>>::eval_spec(r, x, u_i, d_i, zd, od)).real == <O as ODE<
                T,
            >>::eval_spec(r, x.real, reals(u_i), matrix_reals(d_i), zero, one));
        }
    }
    assert(lhs =~= rhs);
}

/// The residual that `build_J_R` returns is the residual of `u` itself, and the
/// value parts of every seeded evaluation agree with it: seeding a direction
/// changes derivative parts only.
pub proof fn lemma_seeding_keeps_residual<T: Arith, O: ODE<T> + ODE<Dual<T>>>(
    u: Seq<T>,
    k: int,
    dd: &CollocationDomain<Dual<T>>,
    fd: Option<&Vec<Vec<Dual<T>>>>,
    bld: BoundaryCondition<Dual<T>>,
    brd: BoundaryCondition<Dual<T>>,
    d: &CollocationDomain<T>,
    f: Option<&Vec<Vec<T>>>,
    bl: BoundaryCondition<T>,
    br: BoundaryCondition<T>,
    zero: T,
    one: T,
)
    requires
        keeps_values::<T, O>(),
        dd.wf(),
        forcing_fits(fd, dd),
        domain_projects(dd, d),
        forcing_projects(fd, f, dd.n_intervals() as int, dd.n_per() as int),
        bc_projects(bld, bl),
        bc_projects(brd, br),
        u.len() == dd.n_intervals() * dd.n_per(),
    ensures
        reals(dual_residual::<T, O>(as_constants(u, zero), dd, fd, bld, brd, zero, one)) == residual_spec::<
            T,
            O,
        >(u, d, f, bl, br, zero, one),
        reals(dual_residual::<T, O>(seeded(u, k, zero, one), dd, fd, bld, brd, zero, one))
            == residual_spec::<T, O>(u, d, f, bl, br, zero, one),
{
    assert(reals(as_constants(u, zero)) =~= u);
    assert(reals(seeded(u, k, zero, one)) =~= u);
    lemma_residual_keeps_values::<T, O>(as_constants(u, zero), dd, fd, bld, brd, d, f, bl, br, zero, one);
    lemma_residual_keeps_values::<T, O>(seeded(u, k, zero, one), dd, fd, bld, brd, d, f, bl, br, zero, one);
}

} // verus!
