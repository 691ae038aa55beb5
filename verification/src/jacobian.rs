//! Jacobians of the collocation residual by forward-mode automatic
//! differentiation: the residual is evaluated on dual numbers, seeded one
//! direction at a time.
use vstd::prelude::*;
use crate::arith::{Arith, exact, total};
use vstd::std_specs::ops::SubSpec;
use crate::automatic_derivative::{
    ODE, block, equation_value, forcing_fits, interior_row, pinned_row, residual, residual_spec,
};
use crate::primal::lemma_row_of;
use crate::boundary_conditions::BoundaryCondition;
use crate::dual::{Dual, lemma_dual_exact, lemma_dual_total};
use crate::matrix::Matrix;
use crate::multi_interval_domain::CollocationDomain;

verus! {

/// `u` as constants: every value carries the derivative `zero`.
pub open spec fn as_constants<T>(u: Seq<T>, zero: T) -> Seq<Dual<T>> {
    Seq::new(u.len(), |i: int| Dual { real: u[i], eps: zero })
}

/// `u` seeded in direction `k`: value `k` carries the derivative `one`, every
/// other value the derivative `zero`.
pub open spec fn seeded<T>(u: Seq<T>, k: int, zero: T, one: T) -> Seq<Dual<T>> {
    Seq::new(u.len(), |i: int| Dual { real: u[i], eps: if i == k { one } else { zero } })
}

/// The residual of the problem evaluated on dual numbers, where `zero` and `one`
/// of `T` give `zero + 0ε` and `one + 0ε`.
pub open spec fn dual_residual<T: Arith, O: ODE<Dual<T>>>(
    v: Seq<Dual<T>>,
    domain: &CollocationDomain<Dual<T>>,
    forcing: Option<&Vec<Vec<Dual<T>>>>,
    bc_left: BoundaryCondition<Dual<T>>,
    bc_right: BoundaryCondition<Dual<T>>,
    zero: T,
    one: T,
) -> Seq<Dual<T>> {
    residual_spec::<Dual<T>, O>(
        v,
        domain,
        forcing,
        bc_left,
        bc_right,
        Dual { real: zero, eps: zero },
        Dual { real: one, eps: zero },
    )
}

/// `w` is a value that row `g` of the residual evaluated on dual numbers `v`
/// may take where the row carries the differential equation (see
/// `equation_value`), with `zero + 0ε` and `one + 0ε` handed to the operator.
pub open spec fn dual_equation_value<T: Arith, O: ODE<Dual<T>>>(
    v: Seq<Dual<T>>,
    domain: &CollocationDomain<Dual<T>>,
    forcing: Option<&Vec<Vec<Dual<T>>>>,
    zero: T,
    one: T,
    g: int,
    w: Dual<T>,
) -> bool {
    equation_value::<Dual<T>, O>(
        v,
        domain,
        forcing,
        Dual { real: zero, eps: zero },
        Dual { real: one, eps: zero },
        g,
        w,
    )
}

/// `value` is the value part of a value that row `g` of the residual on `v`
/// may take where the row carries the differential equation.
pub open spec fn possible_value<T: Arith, O: ODE<Dual<T>>>(
    v: Seq<Dual<T>>,
    domain: &CollocationDomain<Dual<T>>,
    forcing: Option<&Vec<Vec<Dual<T>>>>,
    zero: T,
    one: T,
    g: int,
    value: T,
) -> bool {
    exists|w: Dual<T>| #[trigger] dual_equation_value::<T, O>(v, domain, forcing, zero, one, g, w) && w.real == value
}

/// `value` is the derivative part of a value that row `g` of the residual on
/// `v` may take where the row carries the differential equation.
pub open spec fn possible_derivative<T: Arith, O: ODE<Dual<T>>>(
    v: Seq<Dual<T>>,
    domain: &CollocationDomain<Dual<T>>,
    forcing: Option<&Vec<Vec<Dual<T>>>>,
    zero: T,
    one: T,
    g: int,
    value: T,
) -> bool {
    exists|w: Dual<T>| #[trigger] dual_equation_value::<T, O>(v, domain, forcing, zero, one, g, w) && w.eps == value
}

/// The requirements shared by the Jacobian builders.
pub open spec fn jacobian_inputs<T: Arith>(
    u: Seq<T>,
    domain: &CollocationDomain<Dual<T>>,
    forcing: Option<&Vec<Vec<Dual<T>>>>,
) -> bool {
    &&& total::<T>()
    &&& domain.wf()
    &&& forcing_fits(forcing, domain)
    &&& u.len() == domain.n_intervals() * domain.n_per()
}

/// Column `k` of the Jacobian of the residual at `u`: the derivative parts of the
/// residual evaluated with `u` seeded in direction `k`.
pub fn jacobian_column<T: Arith, O: ODE<Dual<T>>>(
    ode: &O,
    u: &Vec<T>,
    domain: &CollocationDomain<Dual<T>>,
    non_homogeneous: Option<&Vec<Vec<Dual<T>>>>,
    bc_left: &BoundaryCondition<Dual<T>>,
    bc_right: &BoundaryCondition<Dual<T>>,
    k: usize,
    zero: T,
    one: T,
) -> (r: Vec<T>)
    requires
        jacobian_inputs(u@, domain, non_homogeneous),
        <O as ODE<Dual<T>>>::admissible(),
    ensures
        r@.len() == u@.len(),
        exact::<T>() ==> forall|g: int|
            0 <= g < u@.len() && pinned_row::<Dual<T>, O>(g, domain.n_per() as int) ==> #[trigger] r@[g] == dual_residual::<T, O>(
                seeded(u@, k as int, zero, one),
                domain,
                non_homogeneous,
                *bc_left,
                *bc_right,
                zero,
                one,
            )[g].eps,
        exact::<T>() ==> forall|g: int|
            0 <= g < u@.len() && interior_row(g, domain.n_per() as int) ==> possible_derivative::<T, O>(
                seeded(u@, k as int, zero, one),
                domain,
                non_homogeneous,
                zero,
                one,
                g,
                #[trigger] r@[g],
            ),
{
    proof {
        lemma_dual_total::<T>();
    }
    let n = u.len();
    let mut seed: Vec<Dual<T>> = Vec::new();
    let mut i: usize = 0;
    while i < n
        invariant
            n == u@.len(),
            i <= n,
            seed@ =~= seeded(u@, k as int, zero, one).subrange(0, i as int),
        decreases n - i,
    {
        let eps = if i == k { one } else { zero };
        seed.push(Dual { real: u[i], eps });
        i += 1;
    }
    assert(seed@ =~= seeded(u@, k as int, zero, one));
    let f_dual = residual(
        ode,
        &seed,
        domain,
        non_homogeneous,
        bc_left,
        bc_right,
        Dual { real: zero, eps: zero },
        Dual { real: one, eps: zero },
    );
    proof {
        if exact::<T>() {
            lemma_dual_exact::<T>();
        }
    }
    let mut col: Vec<T> = Vec::new();
    let mut g: usize = 0;
    while g < n
        invariant
            n == u@.len(),
            f_dual@.len() == n,
            g <= n,
            col@.len() == g,
            forall|j: int| 0 <= j < g ==> #[trigger] col@[j] == f_dual@[j].eps,
        decreases n - g,
    {
        col.push(f_dual[g].eps);
        g += 1;
    }
    proof {
        if exact::<T>() {
            assert forall|g: int| 0 <= g < u@.len() && interior_row(g, domain.n_per() as int) implies possible_derivative::<T, O>(
                seeded(u@, k as int, zero, one),
                domain,
                non_homogeneous,
                zero,
                one,
                g,
                col@[g],
            ) by {
                assert(dual_equation_value::<T, O>(
                    seeded(u@, k as int, zero, one),
                    domain,
                    non_homogeneous,
                    zero,
                    one,
                    g,
                    f_dual@[g],
                ));
            }
        }
    }
    col
}

/// The residual of the collocation problem at `u`: the value parts of the
/// residual evaluated on `u` taken as constants.
pub fn residual_values<T: Arith, O: ODE<Dual<T>>>(
    ode: &O,
    u: &Vec<T>,
    domain: &CollocationDomain<Dual<T>>,
    non_homogeneous: Option<&Vec<Vec<Dual<T>>>>,
    bc_left: &BoundaryCondition<Dual<T>>,
    bc_right: &BoundaryCondition<Dual<T>>,
    zero: T,
    one: T,
) -> (r: Vec<T>)
    requires
        jacobian_inputs(u@, domain, non_homogeneous),
        <O as ODE<Dual<T>>>::admissible(),
    ensures
        r@.len() == u@.len(),
        exact::<T>() ==> forall|g: int|
            0 <= g < u@.len() && pinned_row::<Dual<T>, O>(g, domain.n_per() as int) ==> #[trigger] r@[g]
                == dual_residual::<T, O>(
                as_constants(u@, zero),
                domain,
                non_homogeneous,
                *bc_left,
                *bc_right,
                zero,
                one,
            )[g].real,
        exact::<T>() ==> forall|g: int|
            0 <= g < u@.len() && interior_row(g, domain.n_per() as int) ==> possible_value::<T, O>(
                as_constants(u@, zero),
                domain,
                non_homogeneous,
                zero,
                one,
                g,
                r@[g],
            ),
{
    proof {
        lemma_dual_total::<T>();
    }
    let n = u.len();
    let mut u_real: Vec<Dual<T>> = Vec::new();
    let mut i: usize = 0;
    while i < n
        invariant
            n == u@.len(),
            i <= n,
            u_real@ =~= as_constants(u@, zero).subrange(0, i as int),
        decreases n - i,
    {
        u_real.push(Dual { real: u[i], eps: zero });
        i += 1;
    }
    assert(u_real@ =~= as_constants(u@, zero));
    let f_r = residual(
        ode,
        &u_real,
        domain,
        non_homogeneous,
        bc_left,
        bc_right,
        Dual { real: zero, eps: zero },
        Dual { real: one, eps: zero },
    );
    proof {
        if exact::<T>() {
            lemma_dual_exact::<T>();
        }
    }
    let mut res: Vec<T> = Vec::new();
    let mut g: usize = 0;
    while g < n
        invariant
            n == u@.len(),
            f_r@.len() == n,
            g <= n,
            res@.len() == g,
            forall|j: int| 0 <= j < g ==> #[trigger] res@[j] == f_r@[j].real,
        decreases n - g,
    {
        res.push(f_r[g].real);
        g += 1;
    }
    proof {
        if exact::<T>() {
            assert forall|g: int| 0 <= g < u@.len() && interior_row(g, domain.n_per() as int) implies possible_value::<T, O>(
                as_constants(u@, zero),
                domain,
                non_homogeneous,
                zero,
                one,
                g,
                res@[g],
            ) by {
                assert(dual_equation_value::<T, O>(
                    as_constants(u@, zero),
                    domain,
                    non_homogeneous,
                    zero,
                    one,
                    g,
                    f_r@[g],
                ));
            }
        }
    }
    res
}

/// The Jacobian `J` and the residual `R` of the collocation problem at `u`, both
/// by forward-mode automatic differentiation: `R` is the value part of the
/// residual evaluated on `u` taken as constants, and column `k` of `J` is the
/// derivative part of the residual evaluated on `u` seeded in direction `k`.
/// On the rows that carry the differential equation of an operator that does
/// not describe its `eval`, these are the value and derivative parts of what
/// `eval` returns there, less the forcing.
#[allow(non_snake_case)]
pub fn build_J_R<T: Arith, O: ODE<Dual<T>>>(
    ode: &O,
    u: &Vec<T>,
    multi_interval_domain: &CollocationDomain<Dual<T>>,
    non_homogeneous: Option<&Vec<Vec<Dual<T>>>>,
    bc_left: BoundaryCondition<Dual<T>>,
    bc_right: BoundaryCondition<Dual<T>>,
    zero: T,
    one: T,
) -> (r: (Matrix<T>, Vec<T>))
    requires
        jacobian_inputs(u@, multi_interval_domain, non_homogeneous),
        <O as ODE<Dual<T>>>::admissible(),
    ensures
        r.0.is_square(u@.len()),
        r.1@.len() == u@.len(),
        exact::<T>() ==> forall|g: int|
            0 <= g < u@.len() && pinned_row::<Dual<T>, O>(g, multi_interval_domain.n_per() as int)
                ==> #[trigger] r.1@[g] == dual_residual::<T, O>(
                as_constants(u@, zero),
                multi_interval_domain,
                non_homogeneous,
                bc_left,
                bc_right,
                zero,
                one,
            )[g].real,
        exact::<T>() ==> forall|g: int, k: int|
            0 <= g < u@.len() && 0 <= k < u@.len() && pinned_row::<Dual<T>, O>(
                g,
                multi_interval_domain.n_per() as int,
            ) ==> #[trigger] r.0@[g][k] == dual_residual::<T, O>(
                seeded(u@, k, zero, one),
                multi_interval_domain,
                non_homogeneous,
                bc_left,
                bc_right,
                zero,
                one,
            )[g].eps,
        exact::<T>() ==> forall|g: int|
            #![trigger r.1@[g]]
            0 <= g < u@.len() && interior_row(g, multi_interval_domain.n_per() as int) ==> possible_value::<T, O>(
                as_constants(u@, zero),
                multi_interval_domain,
                non_homogeneous,
                zero,
                one,
                g,
                r.1@[g],
            ),
        exact::<T>() ==> forall|g: int, k: int|
            #![trigger r.0@[g][k]]
            0 <= g < u@.len() && 0 <= k < u@.len() && interior_row(g, multi_interval_domain.n_per() as int)
                ==> possible_derivative::<T, O>(
                    seeded(u@, k, zero, one),
                    multi_interval_domain,
                    non_homogeneous,
                    zero,
                    one,
                    g,
                    r.0@[g][k],
                ),
{
    let res = residual_values(
        ode,
        u,
        multi_interval_domain,
        non_homogeneous,
        &bc_left,
        &bc_right,
        zero,
        one,
    );
    let n = u.len();
    let mut cols: Vec<Vec<T>> = Vec::new();
    let mut k: usize = 0;
    while k < n
        invariant
            jacobian_inputs(u@, multi_interval_domain, non_homogeneous),
            <O as ODE<Dual<T>>>::admissible(),
            n == u@.len(),
            k <= n,
            cols@.len() == k,
            forall|c: int| 0 <= c < k ==> (#[trigger] cols@[c])@.len() == n,
            exact::<T>() ==> forall|c: int, j: int|
                0 <= c < k && 0 <= j < n && pinned_row::<Dual<T>, O>(
                    j,
                    multi_interval_domain.n_per() as int,
                ) ==> #[trigger] cols@[c]@[j] == dual_residual::<T, O>(
                    seeded(u@, c, zero, one),
                    multi_interval_domain,
                    non_homogeneous,
                    bc_left,
                    bc_right,
                    zero,
                    one,
                )[j].eps,
            exact::<T>() ==> forall|c: int, j: int|
                #![trigger cols@[c]@[j]]
                0 <= c < k && 0 <= j < n && interior_row(j, multi_interval_domain.n_per() as int)
                    ==> possible_derivative::<T, O>(
                        seeded(u@, c, zero, one),
                        multi_interval_domain,
                        non_homogeneous,
                        zero,
                        one,
                        j,
                        cols@[c]@[j],
                    ),
        decreases n - k,
    {
        let col = jacobian_column(
            ode,
            u,
            multi_interval_domain,
            non_homogeneous,
            &bc_left,
            &bc_right,
            k,
            zero,
            one,
        );
        let ghost old_cols = cols@;
        cols.push(col);
        k += 1;
        proof {
            if exact::<T>() {
                assert forall|c: int, j: int|
                    #![trigger cols@[c]@[j]]
                    0 <= c < k && 0 <= j < n && interior_row(j, multi_interval_domain.n_per() as int)
                        implies possible_derivative::<T, O>(
                            seeded(u@, c, zero, one),
                            multi_interval_domain,
                            non_homogeneous,
                            zero,
                            one,
                            j,
                            cols@[c]@[j],
                        ) by {
                    if c < k - 1 {
                        assert(old_cols[c]@[j] == cols@[c]@[j]);
                    } else {
                        assert(col@[j] == cols@[c]@[j]);
                    }
                }
            }
        }
    }
    let jac = Matrix::from_columns(n, &cols);
    let r = (jac, res);
    proof {
        if exact::<T>() {
            assert forall|g: int, k: int|
                #![trigger r.0@[g][k]]
                0 <= g < u@.len() && 0 <= k < u@.len() && interior_row(g, multi_interval_domain.n_per() as int)
                    implies possible_derivative::<T, O>(
                        seeded(u@, k, zero, one),
                        multi_interval_domain,
                        non_homogeneous,
                        zero,
                        one,
                        g,
                        r.0@[g][k],
                    ) by {
                assert(cols@[k]@[g] == r.0@[g][k]);
            }
        }
    }
    r
}

/// A forcing table whose entries are constants shifts the residual on dual
/// numbers by the forcing, in the value part and only on the rows that carry the
/// differential equation, and changes nothing else: the residual `R` that
/// `build_J_R` returns moves by `−f` there, and its Jacobian `J` does not depend
/// on the forcing. Stated for a scalar type where `zero` is neutral for `−` on
/// the right.
pub proof fn lemma_forcing_shifts_residual<T: Arith, O: ODE<Dual<T>>>(
    v: Seq<Dual<T>>,
    domain: &CollocationDomain<Dual<T>>,
    forcing: &Vec<Vec<Dual<T>>>,
    bc_left: BoundaryCondition<Dual<T>>,
    bc_right: BoundaryCondition<Dual<T>>,
    zero: T,
    one: T,
)
    requires
        forall|a: T| #[trigger] a.sub_spec(zero) == a,
        domain.wf(),
        forcing_fits(Some(forcing), domain),
        forall|i: int, r: int|
            0 <= i < domain.n_intervals() && 0 <= r < domain.n_per() ==> (#[trigger] forcing@[i]@[r]).eps == zero,
    ensures
        ({
            let with = dual_residual::<T, O>(v, domain, Some(forcing), bc_left, bc_right, zero, one);
            let without = dual_residual::<T, O>(v, domain, None, bc_left, bc_right, zero, one);
            let p = domain.n_per() as int;
            &&& with.len() == without.len()
            &&& forall|g: int| 0 <= g < with.len() ==> #[trigger] with[g].eps == without[g].eps
            &&& forall|g: int|
                0 <= g < with.len() && interior_row(g, p) ==> #[trigger] with[g].real == without[g].real.sub_spec(
                    forcing@[g / p]@[g % p].real,
                )
            &&& forall|g: int| 0 <= g < with.len() && !interior_row(g, p) ==> #[trigger] with[g] == without[g]
        }),
{
    let zd = Dual { real: zero, eps: zero };
    let od = Dual { real: one, eps: zero };
    let p = domain.n_per() as int;
    let m = domain.n_intervals() as int;
    let with = dual_residual::<T, O>(v, domain, Some(forcing), bc_left, bc_right, zero, one);
    let without = dual_residual::<T, O>(v, domain, None, bc_left, bc_right, zero, one);
    assert forall|g: int| 0 <= g < m * p implies {
        &&& #[trigger] with[g].eps == without[g].eps
        &&& interior_row(g, p) ==> with[g].real == without[g].real.sub_spec(forcing@[g / p]@[g % p].real)
        &&& !interior_row(g, p) ==> with[g] == without[g]
    } by {
        lemma_row_of(g, p, m);
        let i = g / p;
        let r = g % p;
        if interior_row(g, p) {
            let e = <O as ODE<Dual<T>>>::eval_spec(r, domain.points_of(i)[r], block(v, i, p), domain.dmatrix_of(i), zd, od);
            assert(forcing@[i]@[r].eps == zero);
            assert(e.eps.sub_spec(zero) == e.eps);
            assert(e.real.sub_spec(zero) == e.real);
        }
    }
}

} // verus!
