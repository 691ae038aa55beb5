//! Assembly of the collocation residual: one equation per collocation value,
//! for an operator given by the user.
use vstd::prelude::*;
use vstd::std_specs::ops::SubSpec;
use vstd::arithmetic::div_mod::lemma_fundamental_div_mod_converse;
use crate::arith::{Arith, exact, total};
use crate::boundary_conditions::{BoundaryCondition, Endpoint};
use crate::matrix::Matrix;
use crate::matrix_op::{apply_matrix, mat_vec};
use crate::multi_interval_domain::CollocationDomain;

verus! {

/// A differential operator `N[u]`, evaluated at one collocation row of an interval.
///
/// `eval(row, x, u, d, zero, one)` is the operator at the collocation point `x`
/// (row `row`), where `u` holds the solution values on the interval and `d` is
/// its differentiation matrix; `zero` and `one` are those of the scalar type.
/// An implementation that describes what `eval` computes sets `specified()` and
/// gives the description in `eval_spec`; one that does not claims nothing, and
/// what the residual holds on its rows is then what `eval` may return. An
/// implementation whose `eval` uses operations that may refuse their operands
/// (division, negation) says in `admissible()` when they never do.
pub trait ODE<T> {
    /// Whether `eval_spec` describes `eval`.
    open spec fn specified() -> bool {
        false
    }

    /// What `eval` computes, where `specified()` holds.
    open spec fn eval_spec(row: int, x: T, u: Seq<T>, d: Seq<Seq<T>>, zero: T, one: T) -> T {
        zero
    }

    /// Whether the operations `eval` uses beyond `+`, `−` and `·` are defined on
    /// every operand of `T`.
    open spec fn admissible() -> bool {
        true
    }

    fn eval(row: usize, x: T, u: &Vec<T>, d: &Matrix<T>, zero: T, one: T) -> (r: T)
        where T: Arith,
        requires
            total::<T>(),
            Self::admissible(),
            row < u@.len(),
            d.is_square(u@.len()),
        ensures
            exact::<T>() && Self::specified() ==> r == Self::eval_spec(row as int, x, u@, d@, zero, one),
    ;
}

/// The values of `u` on interval `i`: entries `i·n_per .. i·n_per + n_per`.
pub open spec fn block<T>(u: Seq<T>, i: int, n_per: int) -> Seq<T> {
    u.subrange(i * n_per, i * n_per + n_per)
}

/// The values of `u` on interval `i`.
pub fn local_u<T: Copy>(u: &Vec<T>, i: usize, n_per: usize) -> (r: Vec<T>)
    requires
        i * n_per + n_per <= u@.len(),
    ensures
        r@ == block(u@, i as int, n_per as int),
{
    let len = u.len();
    let start = i * n_per;
    let mut out: Vec<T> = Vec::new();
    let mut k: usize = 0;
    while k < n_per
        invariant
            start == i * n_per,
            start + n_per <= u@.len(),
            u@.len() == len,
            k <= n_per,
            out@ == u@.subrange(start as int, start + k),
        decreases n_per - k,
    {
        out.push(u[start + k]);
        k += 1;
        assert(out@ =~= u@.subrange(start as int, start + k));
    }
    out
}

/// The forcing value at point `r` of interval `i`: the given table's entry, or
/// `zero` for a homogeneous problem.
pub open spec fn forcing_at<T>(forcing: Option<&Vec<Vec<T>>>, i: int, r: int, zero: T) -> T {
    match forcing {
        Some(f) => f@[i]@[r],
        None => zero,
    }
}

/// A forcing table, when given, holds one value per collocation point.
pub open spec fn forcing_fits<T>(forcing: Option<&Vec<Vec<T>>>, domain: &CollocationDomain<T>) -> bool {
    forcing matches Some(f) ==> {
        &&& f@.len() == domain.n_intervals()
        &&& forall|i: int| 0 <= i < domain.n_intervals() ==> (#[trigger] f@[i])@.len() == domain.n_per()
    }
}

/// The equation that row `r` of interval `i` carries:
/// - the first row of the domain: the left boundary condition;
/// - the last row of the domain: the right boundary condition;
/// - the last row of any other interval: continuity of the derivative with the next interval;
/// - the first row of any other interval: continuity of the value with the previous interval;
/// - every other row: the differential equation `N[u](x_r) − f(x_r)`.
pub open spec fn residual_entry<T: Arith, O: ODE<T>>(
    u: Seq<T>,
    domain: &CollocationDomain<T>,
    forcing: Option<&Vec<Vec<T>>>,
    bc_left: BoundaryCondition<T>,
    bc_right: BoundaryCondition<T>,
    zero: T,
    one: T,
    i: int,
    r: int,
) -> T {
    let n_per = domain.n_per() as int;
    let n_int = domain.n_intervals() as int;
    let u_i = block(u, i, n_per);
    let d_i = domain.dmatrix_of(i);
    if i == 0 && r == 0 {
        bc_left.residual_spec(u_i, d_i, Endpoint::Left, zero)
    } else if i == n_int - 1 && r == n_per - 1 {
        bc_right.residual_spec(u_i, d_i, Endpoint::Right, zero)
    } else if r == n_per - 1 {
        let du_left = mat_vec(d_i, u_i, zero);
        let du_right = mat_vec(domain.dmatrix_of(i + 1), block(u, i + 1, n_per), zero);
        du_left[n_per - 1].sub_spec(du_right[0])
    } else if r == 0 {
        block(u, i - 1, n_per)[n_per - 1].sub_spec(u_i[0])
    } else {
        O::eval_spec(r, domain.points_of(i)[r], u_i, d_i, zero, one).sub_spec(
            forcing_at(forcing, i, r, zero),
        )
    }
}

/// Row `g` carries a boundary or interface equation, or the operator describes
/// what it computes: the rows whose value the residual's contract fixes.
pub open spec fn pinned_row<T, O: ODE<T>>(g: int, n_per: int) -> bool {
    O::specified() || g % n_per == 0 || g % n_per == n_per - 1
}

/// Row `g` lies strictly inside its interval, where it carries the
/// differential equation.
pub open spec fn interior_row(g: int, n_per: int) -> bool {
    0 < g % n_per < n_per - 1
}

/// `v` is a value that row `g` may take where it carries the differential
/// equation: a value that `O::eval` may return on that row's index, point,
/// values and differentiation matrix, less the forcing there.
pub open spec fn equation_value<T: Arith, O: ODE<T>>(
    u: Seq<T>,
    domain: &CollocationDomain<T>,
    forcing: Option<&Vec<Vec<T>>>,
    zero: T,
    one: T,
    g: int,
    v: T,
) -> bool {
    let n_per = domain.n_per() as int;
    let i = g / n_per;
    let r = g % n_per;
    exists|uv: Vec<T>, e: T|
        #![trigger call_ensures(O::eval, (r as usize, domain.points_of(i)[r], &uv, &domain.intervals@[i].dmatrix, zero, one), e)]
        uv@ == block(u, i, n_per) && call_ensures(
            O::eval,
            (r as usize, domain.points_of(i)[r], &uv, &domain.intervals@[i].dmatrix, zero, one),
            e,
        ) && v == e.sub_spec(forcing_at(forcing, i, r, zero))
}

/// The collocation residual: entry `i·n_per + r` is `residual_entry(.., i, r)`.
pub open spec fn residual_spec<T: Arith, O: ODE<T>>(
    u: Seq<T>,
    domain: &CollocationDomain<T>,
    forcing: Option<&Vec<Vec<T>>>,
    bc_left: BoundaryCondition<T>,
    bc_right: BoundaryCondition<T>,
    zero: T,
    one: T,
) -> Seq<T> {
    let n_per = domain.n_per() as int;
    Seq::new(
        domain.n_intervals() * domain.n_per(),
        |g: int| residual_entry::<T, O>(u, domain, forcing, bc_left, bc_right, zero, one, g / n_per, g % n_per),
    )
}

proof fn lemma_block_index(i: int, r: int, n_per: int, n_int: int)
    requires
        0 <= i < n_int,
        0 <= r < n_per,
    ensures
        (i * n_per + r) / n_per == i,
        (i * n_per + r) % n_per == r,
        i * n_per + n_per <= n_int * n_per,
        i * n_per + n_per == (i + 1) * n_per,
        0 <= i * n_per,
        (i * n_per + r == 0) <==> (i == 0 && r == 0),
        (i * n_per + r == n_int * n_per - 1) <==> (i == n_int - 1 && r == n_per - 1),
{
    lemma_fundamental_div_mod_converse(i * n_per + r, n_per, i, r);
    assert(i * n_per + n_per <= n_int * n_per) by (nonlinear_arith)
        requires
            0 <= i < n_int,
            0 <= r < n_per,
    ;
    assert(0 <= i * n_per) by (nonlinear_arith)
        requires
            0 <= i,
            0 <= r < n_per,
    ;
    assert(i * n_per + n_per == (i + 1) * n_per) by (nonlinear_arith);
    assert((i * n_per + r == 0) <==> (i == 0 && r == 0)) by (nonlinear_arith)
        requires
            0 <= i,
            0 <= r < n_per,
    ;
    assert((i * n_per + r == n_int * n_per - 1) <==> (i == n_int - 1 && r == n_per - 1)) by (nonlinear_arith)
        requires
            0 <= i < n_int,
            0 <= r < n_per,
    ;
}

/// The collocation residual `F(u)` of the problem `N[u] = f` on the domain, with
/// the boundary conditions `bc_left` and `bc_right`: one equation per collocation
/// value, in the order that `residual_entry` describes. Boundary and interface
/// rows are fixed for every operator; a row that carries the differential
/// equation holds what `O::eval` returns there less the forcing, which is
/// `eval_spec` less the forcing where the operator describes its `eval`.
pub fn residual<T: Arith, O: ODE<T>>(
    ode: &O,
    u: &Vec<T>,
    domain: &CollocationDomain<T>,
    non_homogeneous: Option<&Vec<Vec<T>>>,
    bc_left: &BoundaryCondition<T>,
    bc_right: &BoundaryCondition<T>,
    zero: T,
    one: T,
) -> (r: Vec<T>)
    requires
        total::<T>(),
        O::admissible(),
        domain.wf(),
        forcing_fits(non_homogeneous, domain),
        u@.len() >= domain.n_intervals() * domain.n_per(),
    ensures
        r@.len() == domain.n_intervals() * domain.n_per(),
        exact::<T>() ==> forall|g: int|
            0 <= g < r@.len() && pinned_row::<T, O>(g, domain.n_per() as int) ==> #[trigger] r@[g]
                == residual_spec::<T, O>(u@, domain, non_homogeneous, *bc_left, *bc_right, zero, one)[g],
        exact::<T>() ==> forall|g: int|
            0 <= g < r@.len() && interior_row(g, domain.n_per() as int) ==> equation_value::<T, O>(
                u@,
                domain,
                non_homogeneous,
                zero,
                one,
                g,
                #[trigger] r@[g],
            ),
        exact::<T>() && O::specified() ==> r@ == residual_spec::<T, O>(
            u@,
            domain,
            non_homogeneous,
            *bc_left,
            *bc_right,
            zero,
            one,
        ),
{
    let n_int = domain.intervals.len();
    let n_per = domain.intervals[0].points.len();
    let u_len = u.len();
    proof {
        lemma_block_index(n_int - 1, n_per - 1, n_per as int, n_int as int);
    }
    let n_total = n_int * n_per;
    let ghost spec = residual_spec::<T, O>(u@, domain, non_homogeneous, *bc_left, *bc_right, zero, one);
    let mut f: Vec<T> = Vec::new();
    let mut i: usize = 0;
    while i < n_int
        invariant
            total::<T>(),
            O::admissible(),
            domain.wf(),
            forcing_fits(non_homogeneous, domain),
            n_int == domain.n_intervals(),
            n_per == domain.n_per(),
            n_total == n_int * n_per,
            u@.len() >= n_total,
            spec == residual_spec::<T, O>(u@, domain, non_homogeneous, *bc_left, *bc_right, zero, one),
            i <= n_int,
            f@.len() == i * n_per,
            exact::<T>() ==> forall|g: int| 0 <= g < f@.len() && pinned_row::<T, O>(g, n_per as int) ==> #[trigger] f@[g] == spec[g],
                exact::<T>() ==> forall|g: int|
                    0 <= g < f@.len() && interior_row(g, n_per as int) ==> equation_value::<T, O>(
                        u@,
                        domain,
                        non_homogeneous,
                        zero,
                        one,
                        g,
                        #[trigger] f@[g],
                    ),
        decreases n_int - i,
    {
        proof {
            lemma_block_index(i as int, 0, n_per as int, n_int as int);
        }
        let iv = &domain.intervals[i];
        let u_local = local_u(u, i, n_per);
        let mut r: usize = 0;
        while r < n_per
            invariant
                total::<T>(),
                O::admissible(),
                domain.wf(),
                forcing_fits(non_homogeneous, domain),
                n_int == domain.n_intervals(),
                n_per == domain.n_per(),
                n_total == n_int * n_per,
                u@.len() >= n_total,
                spec == residual_spec::<T, O>(u@, domain, non_homogeneous, *bc_left, *bc_right, zero, one),
                i < n_int,
                i * n_per + n_per <= n_total,
                *iv == domain.intervals@[i as int],
                u_local@ == block(u@, i as int, n_per as int),
                r <= n_per,
                f@.len() == i * n_per + r,
                exact::<T>() ==> forall|g: int| 0 <= g < f@.len() && pinned_row::<T, O>(g, n_per as int) ==> #[trigger] f@[g] == spec[g],
                exact::<T>() ==> forall|g: int|
                    0 <= g < f@.len() && interior_row(g, n_per as int) ==> equation_value::<T, O>(
                        u@,
                        domain,
                        non_homogeneous,
                        zero,
                        one,
                        g,
                        #[trigger] f@[g],
                    ),
            decreases n_per - r,
        {
            proof {
                lemma_block_index(i as int, r as int, n_per as int, n_int as int);
            }
            let g = i * n_per + r;
            let val = if g == 0 {
                bc_left.apply(&u_local, &iv.dmatrix, Endpoint::Left, zero)
            } else if g == n_total - 1 {
                proof {
                    if i + 1 < n_int {
                        lemma_block_index(i + 1, 0, n_per as int, n_int as int);
                    }
                }
                bc_right.apply(&u_local, &iv.dmatrix, Endpoint::Right, zero)
            } else if r == n_per - 1 {
                proof {
                    lemma_block_index(i + 1, 0, n_per as int, n_int as int);
                }
                let du_left = apply_matrix(&iv.dmatrix, &u_local, zero);
                let next = &domain.intervals[i + 1];
                let u_right = local_u(u, i + 1, n_per);
                let du_right = apply_matrix(&next.dmatrix, &u_right, zero);
                du_left[n_per - 1] - du_right[0]
            } else if r == 0 {
                proof {
                    lemma_block_index(i - 1, 0, n_per as int, n_int as int);
                }
                let u_left = local_u(u, i - 1, n_per);
                u_left[n_per - 1] - u_local[0]
            } else {
                let x = iv.points[r];
                let f_val = match non_homogeneous {
                    Some(table) => table[i][r],
                    None => zero,
                };
                let eval_fn = O::eval;
                let e = eval_fn(r, x, &u_local, &iv.dmatrix, zero, one);
                proof {
                    if exact::<T>() {
                        assert(equation_value::<T, O>(u@, domain, non_homogeneous, zero, one, g as int, e.sub_spec(f_val)));
                    }
                }
                e - f_val
            };
            f.push(val);
            r += 1;
        }
        i += 1;
    }
    proof {
        if exact::<T>() && O::specified() {
            assert forall|g: int| 0 <= g < f@.len() implies pinned_row::<T, O>(g, n_per as int) by {}
            assert(f@ =~= spec);
        }
    }
    f
}


} // verus!
