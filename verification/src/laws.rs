//! What the building blocks are for, stated over all inputs: a
//! matrix–vector product reads every column, the Chebyshev differentiation
//! matrix differentiates constants to zero, the map to the physical interval is
//! affine, and the model operators vanish on the zero function, so that the
//! zero function solves every homogeneous model problem.
use vstd::prelude::*;
use vstd::std_specs::ops::{AddSpec, MulSpec, NegSpec, SubSpec};
use crate::arith::{Arith, FieldOps};
use crate::automatic_derivative::{ODE, block, residual_spec};
use crate::boundary_conditions::BoundaryCondition;
use crate::dual_laws::{
    add_commutes_associates, additive_group, distributes, left_unit, mul_associates, mul_commutes,
};
use crate::matrix_op::{dot_prefix, mat_vec};
use crate::multi_interval_domain::{CollocationDomain, cheb_entry, cheb_row_sum, physical_point};
use crate::primal::lemma_row_of;
use crate::sparsity::{lemma_derivatives_zeros, lemma_mat_vec_zeros, zero_absorbs_left, zeros};
use crate::tangent::{unit, zero_identities};
use crate::test_odes::{
    AllenCahnODE, BurgersODE, ConvectionDiffusionODE, DuffingODE, FisherODE, ImportantOde,
    NonlinearDiffusionODE, PoissonODE, QuadraticNonlinearODE, first_derivative, second_derivative,
};

verus! {

/// `zero` is a unit for `+` on the right.
pub open spec fn right_add_unit<T: Arith>(zero: T) -> bool {
    forall|a: T| #[trigger] a.add_spec(zero) == a
}

proof fn lemma_dot_prefix_unit<T: Arith>(row: Seq<T>, n: nat, k: int, m: int, zero: T, one: T)
    requires
        0 <= k < n,
        0 <= m <= row.len(),
        m <= n,
        zero_identities(zero),
        zero_absorbs_left(zero),
        right_add_unit(zero),
        left_unit(one),
    ensures
        dot_prefix(row, unit(n, k, zero, one), m, zero) == if m <= k { zero } else { row[k] },
    decreases m,
{
    if m > 0 {
        lemma_dot_prefix_unit(row, n, k, m - 1, zero, one);
        let e = unit(n, k, zero, one);
        if m - 1 == k {
            assert(e[k] == one);
            assert(one.mul_spec(row[k]) == row[k]);
            assert(zero.add_spec(row[k]) == row[k]);
        } else {
            assert(e[m - 1] == zero);
            assert(zero.mul_spec(row[m - 1]) == zero);
            assert(zero.add_spec(zero) == zero);
            assert(row[k].add_spec(zero) == row[k]);
        }
    }
}

/// A matrix–vector product reads every column: applied to the `k`-th unit
/// vector it gives column `k` of the matrix, in every row long enough to have
/// one, for every `k`; where `zero` and `one` are the units of `T`.
pub proof fn lemma_mat_vec_reads_every_column<T: Arith>(d: Seq<Seq<T>>, n: nat, k: int, zero: T, one: T)
    requires
        0 <= k < n,
        zero_identities(zero),
        zero_absorbs_left(zero),
        right_add_unit(zero),
        left_unit(one),
    ensures
        forall|i: int|
            0 <= i < d.len() && k < d[i].len() ==> #[trigger] mat_vec(d, unit(n, k, zero, one), zero)[i]
                == d[i][k],
{
    assert forall|i: int| 0 <= i < d.len() && k < d[i].len() implies #[trigger] mat_vec(
        d,
        unit(n, k, zero, one),
        zero,
    )[i] == d[i][k] by {
        let m = if d[i].len() <= n { d[i].len() } else { n };
        lemma_dot_prefix_unit(d[i], n, k, m as int, zero, one);
    }
}

/// `u + v`, entry by entry.
pub open spec fn seq_add<T: Arith>(u: Seq<T>, v: Seq<T>) -> Seq<T> {
    Seq::new(u.len(), |j: int| u[j].add_spec(v[j]))
}

/// `c·u`, entry by entry.
pub open spec fn seq_scale<T: Arith>(c: T, u: Seq<T>) -> Seq<T> {
    Seq::new(u.len(), |j: int| c.mul_spec(u[j]))
}

/// `(p + q) + (r + s) = (p + r) + (q + s)`.
proof fn lemma_add_swap_middle<T: Arith>(p: T, q: T, r: T, s: T)
    requires
        add_commutes_associates::<T>(),
    ensures
        p.add_spec(q).add_spec(r.add_spec(s)) == p.add_spec(r).add_spec(q.add_spec(s)),
{
    reveal(add_commutes_associates);
    assert(p.add_spec(q).add_spec(r.add_spec(s)) == p.add_spec(q.add_spec(r.add_spec(s))));
    assert(q.add_spec(r.add_spec(s)) == q.add_spec(r).add_spec(s));
    assert(q.add_spec(r) == r.add_spec(q));
    assert(r.add_spec(q).add_spec(s) == r.add_spec(q.add_spec(s)));
    assert(p.add_spec(r.add_spec(q.add_spec(s))) == p.add_spec(r).add_spec(q.add_spec(s)));
}

proof fn lemma_dot_prefix_additive<T: Arith>(row: Seq<T>, u: Seq<T>, v: Seq<T>, m: int, zero: T)
    requires
        0 <= m <= row.len(),
        m <= u.len(),
        u.len() == v.len(),
        right_add_unit(zero),
        distributes::<T>(),
        add_commutes_associates::<T>(),
    ensures
        dot_prefix(row, seq_add(u, v), m, zero) == dot_prefix(row, u, m, zero).add_spec(dot_prefix(row, v, m, zero)),
    decreases m,
{
    if m <= 0 {
        assert(zero.add_spec(zero) == zero);
    } else {
        lemma_dot_prefix_additive(row, u, v, m - 1, zero);
        let r = row[m - 1];
        let (a, b) = (u[m - 1], v[m - 1]);
        assert(seq_add(u, v)[m - 1] == a.add_spec(b));
        assert(a.add_spec(b).mul_spec(r) == a.mul_spec(r).add_spec(b.mul_spec(r))) by {
            reveal(distributes);
        }
        lemma_add_swap_middle(
            dot_prefix(row, u, m - 1, zero),
            dot_prefix(row, v, m - 1, zero),
            a.mul_spec(r),
            b.mul_spec(r),
        );
    }
}

proof fn lemma_dot_prefix_homogeneous<T: Arith>(row: Seq<T>, c: T, u: Seq<T>, m: int, zero: T)
    requires
        0 <= m <= row.len(),
        m <= u.len(),
        zero_identities(zero),
        mul_commutes::<T>(),
        mul_associates::<T>(),
        distributes::<T>(),
    ensures
        dot_prefix(row, seq_scale(c, u), m, zero) == c.mul_spec(dot_prefix(row, u, m, zero)),
    decreases m,
{
    if m <= 0 {
        assert(c.mul_spec(zero) == zero);
    } else {
        lemma_dot_prefix_homogeneous(row, c, u, m - 1, zero);
        let r = row[m - 1];
        let a = u[m - 1];
        let p = dot_prefix(row, u, m - 1, zero);
        assert(seq_scale(c, u)[m - 1] == c.mul_spec(a));
        assert(c.mul_spec(a).mul_spec(r) == c.mul_spec(a.mul_spec(r))) by {
            reveal(mul_associates);
        }
        assert(c.mul_spec(p).add_spec(c.mul_spec(a.mul_spec(r))) == c.mul_spec(p.add_spec(a.mul_spec(r)))) by {
            reveal(mul_commutes);
            reveal(distributes);
            assert(p.add_spec(a.mul_spec(r)).mul_spec(c) == p.mul_spec(c).add_spec(a.mul_spec(r).mul_spec(c)));
        }
    }
}

/// A matrix–vector product is linear in the vector: `d·(u + v) = d·u + d·v`
/// and `d·(c·u) = c·(d·u)`, over a commutative ring. With
/// `lemma_mat_vec_reads_every_column` this fixes it: it is the sum over every
/// column `k` of `u[k]` times column `k`.
pub proof fn lemma_mat_vec_is_linear<T: Arith>(d: Seq<Seq<T>>, u: Seq<T>, v: Seq<T>, c: T, zero: T)
    requires
        u.len() == v.len(),
        zero_identities(zero),
        right_add_unit(zero),
        mul_commutes::<T>(),
        mul_associates::<T>(),
        distributes::<T>(),
        add_commutes_associates::<T>(),
    ensures
        forall|i: int|
            0 <= i < d.len() ==> #[trigger] mat_vec(d, seq_add(u, v), zero)[i] == mat_vec(d, u, zero)[i].add_spec(
                mat_vec(d, v, zero)[i],
            ),
        forall|i: int|
            0 <= i < d.len() ==> #[trigger] mat_vec(d, seq_scale(c, u), zero)[i] == c.mul_spec(mat_vec(d, u, zero)[i]),
{
    assert forall|i: int| 0 <= i < d.len() implies #[trigger] mat_vec(d, seq_add(u, v), zero)[i] == mat_vec(
        d,
        u,
        zero,
    )[i].add_spec(mat_vec(d, v, zero)[i]) by {
        let m = if d[i].len() <= u.len() { d[i].len() } else { u.len() };
        lemma_dot_prefix_additive(d[i], u, v, m as int, zero);
    }
    assert forall|i: int| 0 <= i < d.len() implies #[trigger] mat_vec(d, seq_scale(c, u), zero)[i] == c.mul_spec(
        mat_vec(d, u, zero)[i],
    ) by {
        let m = if d[i].len() <= u.len() { d[i].len() } else { u.len() };
        lemma_dot_prefix_homogeneous(d[i], c, u, m as int, zero);
    }
}

/// At one row: the operator `O` applied to the zero function gives `zero`.
pub open spec fn vanishes_at<T: Arith, O: ODE<T>>(row: int, x: T, n: nat, d: Seq<Seq<T>>, zero: T, one: T) -> bool {
    0 <= row < n && d.len() == n ==> O::eval_spec(row, x, zeros(n, zero), d, zero, one) == zero
}

/// The operator `O` applied to the zero function gives `zero` at every row, on
/// every interval and differentiation matrix: `N[0] = 0`, no term is left over.
pub open spec fn vanishes_at_zero<T: Arith, O: ODE<T>>(zero: T, one: T) -> bool {
    forall|row: int, x: T, n: nat, d: Seq<Seq<T>>| #[trigger] vanishes_at::<T, O>(row, x, n, d, zero, one)
}

/// Facts on the zero function at one row.
proof fn lemma_zero_function_row<T: Arith>(row: int, n: nat, d: Seq<Seq<T>>, zero: T)
    requires
        0 <= row < n,
        d.len() == n,
        zero_identities(zero),
        zero_absorbs_left(zero),
    ensures
        zeros(n, zero)[row] == zero,
        first_derivative(zeros(n, zero), d, zero)[row] == zero,
        second_derivative(zeros(n, zero), d, zero)[row] == zero,
        zero.add_spec(zero) == zero,
        zero.sub_spec(zero) == zero,
        zero.mul_spec(zero) == zero,
        forall|a: T| #[trigger] zero.mul_spec(a) == zero,
        forall|a: T| #[trigger] a.mul_spec(zero) == zero,
{
    lemma_derivatives_zeros(row, d, n, zero);
}

/// The model operators on any scalar type vanish on the zero function, where
/// `zero` absorbs on both sides and is neutral.
pub proof fn lemma_model_operators_vanish_at_zero<T: Arith>(zero: T, one: T)
    requires
        zero_identities(zero),
        zero_absorbs_left(zero),
    ensures
        vanishes_at_zero::<T, BurgersODE>(zero, one),
        vanishes_at_zero::<T, NonlinearDiffusionODE>(zero, one),
        vanishes_at_zero::<T, FisherODE>(zero, one),
        vanishes_at_zero::<T, PoissonODE>(zero, one),
        vanishes_at_zero::<T, AllenCahnODE>(zero, one),
        vanishes_at_zero::<T, QuadraticNonlinearODE>(zero, one),
        vanishes_at_zero::<T, DuffingODE>(zero, one),
{
    assert forall|row: int, x: T, n: nat, d: Seq<Seq<T>>|
        #![trigger vanishes_at::<T, BurgersODE>(row, x, n, d, zero, one)]
        #![trigger vanishes_at::<T, NonlinearDiffusionODE>(row, x, n, d, zero, one)]
        #![trigger vanishes_at::<T, FisherODE>(row, x, n, d, zero, one)]
        #![trigger vanishes_at::<T, PoissonODE>(row, x, n, d, zero, one)]
        #![trigger vanishes_at::<T, AllenCahnODE>(row, x, n, d, zero, one)]
        #![trigger vanishes_at::<T, QuadraticNonlinearODE>(row, x, n, d, zero, one)]
        #![trigger vanishes_at::<T, DuffingODE>(row, x, n, d, zero, one)]
        {
            &&& vanishes_at::<T, BurgersODE>(row, x, n, d, zero, one)
            &&& vanishes_at::<T, NonlinearDiffusionODE>(row, x, n, d, zero, one)
            &&& vanishes_at::<T, FisherODE>(row, x, n, d, zero, one)
            &&& vanishes_at::<T, PoissonODE>(row, x, n, d, zero, one)
            &&& vanishes_at::<T, AllenCahnODE>(row, x, n, d, zero, one)
            &&& vanishes_at::<T, QuadraticNonlinearODE>(row, x, n, d, zero, one)
            &&& vanishes_at::<T, DuffingODE>(row, x, n, d, zero, one)
        } by {
        if 0 <= row < n && d.len() == n {
            lemma_zero_function_row(row, n, d, zero);
            assert(zero.mul_spec(one.sub_spec(zero)) == zero);
        }
    }
}

/// The convection–diffusion and traveling-front operators vanish on the zero
/// function, where `zero` absorbs on both sides and is neutral.
pub proof fn lemma_field_operators_vanish_at_zero<T: FieldOps>(zero: T, one: T)
    requires
        zero_identities(zero),
        zero_absorbs_left(zero),
    ensures
        vanishes_at_zero::<T, ConvectionDiffusionODE>(zero, one),
        vanishes_at_zero::<T, ImportantOde>(zero, one),
{
    assert forall|row: int, x: T, n: nat, d: Seq<Seq<T>>|
        #![trigger vanishes_at::<T, ConvectionDiffusionODE>(row, x, n, d, zero, one)]
        #![trigger vanishes_at::<T, ImportantOde>(row, x, n, d, zero, one)]
        vanishes_at::<T, ConvectionDiffusionODE>(row, x, n, d, zero, one) && vanishes_at::<T, ImportantOde>(
            row,
            x,
            n,
            d,
            zero,
            one,
        ) by {
        if 0 <= row < n && d.len() == n {
            lemma_zero_function_row(row, n, d, zero);
        }
    }
}

/// The zero function solves the homogeneous problem with zero boundary
/// values: for an operator that vanishes on the zero function, the residual of
/// the zero vector, with no forcing and Dirichlet conditions `0` at both ends,
/// is zero in every row.
pub proof fn lemma_zero_solves_homogeneous_problem<T: Arith, O: ODE<T>>(
    domain: &CollocationDomain<T>,
    zero: T,
    one: T,
)
    requires
        vanishes_at_zero::<T, O>(zero, one),
        zero_identities(zero),
        zero_absorbs_left(zero),
        domain.wf(),
    ensures
        residual_spec::<T, O>(
            zeros(domain.n_intervals() * domain.n_per(), zero),
            domain,
            None,
            BoundaryCondition::Dirichlet(zero),
            BoundaryCondition::Dirichlet(zero),
            zero,
            one,
        ) == zeros(domain.n_intervals() * domain.n_per(), zero),
{
    let p = domain.n_per() as int;
    let m = domain.n_intervals() as int;
    let u = zeros(domain.n_intervals() * domain.n_per(), zero);
    let res = residual_spec::<T, O>(
        u,
        domain,
        None,
        BoundaryCondition::Dirichlet(zero),
        BoundaryCondition::Dirichlet(zero),
        zero,
        one,
    );
    assert(zero.sub_spec(zero) == zero);
    assert forall|g: int| 0 <= g < m * p implies #[trigger] res[g] == zero by {
        lemma_row_of(g, p, m);
        let i = g / p;
        let r = g % p;
        assert(block(u, i, p) =~= zeros(p as nat, zero));
        let d_i = domain.dmatrix_of(i);
        assert(domain.intervals@[i].dmatrix.is_square(domain.n_per()));
        lemma_mat_vec_zeros(d_i, p as nat, zero);
        if i + 1 < m {
            assert(block(u, i + 1, p) =~= zeros(p as nat, zero));
            assert(domain.intervals@[i + 1].dmatrix.is_square(domain.n_per()));
            lemma_mat_vec_zeros(domain.dmatrix_of(i + 1), p as nat, zero);
        }
        if i >= 1 {
            assert(block(u, i - 1, p) =~= zeros(p as nat, zero));
        }
        assert(vanishes_at::<T, O>(r, domain.points_of(i)[r], p as nat, d_i, zero, one));
    }
    assert(res =~= zeros(domain.n_intervals() * domain.n_per(), zero));
}

/// `n` copies of `one`: the constant function `1` on the nodes.
pub open spec fn ones<T>(n: nat, one: T) -> Seq<T> {
    Seq::new(n, |j: int| one)
}

/// The Chebyshev differentiation matrix on the nodes `x`, entry by entry.
pub open spec fn cheb_matrix<T: FieldOps>(x: Seq<T>, zero: T, one: T, two: T) -> Seq<Seq<T>> {
    Seq::new(x.len(), |i: int| Seq::new(x.len(), |j: int| cheb_entry(x, i, j, zero, one, two)))
}

/// `(r + e) + o = (r + o) + e`.
proof fn lemma_add_swap_last<T: Arith>(r: T, e: T, o: T)
    requires
        add_commutes_associates::<T>(),
    ensures
        r.add_spec(e).add_spec(o) == r.add_spec(o).add_spec(e),
{
    reveal(add_commutes_associates);
    assert(r.add_spec(e).add_spec(o) == r.add_spec(e.add_spec(o)));
    assert(e.add_spec(o) == o.add_spec(e));
    assert(r.add_spec(o.add_spec(e)) == r.add_spec(o).add_spec(e));
}

proof fn lemma_cheb_row_prefix<T: FieldOps>(x: Seq<T>, i: int, k: int, zero: T, one: T, two: T)
    requires
        0 <= i < x.len(),
        0 <= k <= x.len(),
        left_unit(one),
        add_commutes_associates::<T>(),
    ensures
        dot_prefix(cheb_matrix(x, zero, one, two)[i], ones(x.len(), one), k, zero) == if k <= i {
            cheb_row_sum(x, i, k, zero, one, two)
        } else {
            cheb_row_sum(x, i, k, zero, one, two).add_spec(cheb_entry(x, i, i, zero, one, two))
        },
    decreases k,
{
    if k > 0 {
        lemma_cheb_row_prefix(x, i, k - 1, zero, one, two);
        let row = cheb_matrix(x, zero, one, two)[i];
        let e = row[k - 1];
        assert(ones(x.len(), one)[k - 1] == one);
        assert(one.mul_spec(e) == e);
        if k - 1 > i {
            lemma_add_swap_last(
                cheb_row_sum(x, i, k - 1, zero, one, two),
                cheb_entry(x, i, i, zero, one, two),
                e,
            );
        }
    }
}

/// The Chebyshev differentiation matrix differentiates constants to zero:
/// on any nodes, every row of `D` applied to the constant function `1` gives
/// `0` (each diagonal entry balances the rest of its row), over a commutative
/// ring with units `zero` and `one`.
pub proof fn lemma_chebyshev_matrix_kills_constants<T: FieldOps>(x: Seq<T>, zero: T, one: T, two: T)
    requires
        left_unit(one),
        add_commutes_associates::<T>(),
        additive_group(zero),
    ensures
        mat_vec(cheb_matrix(x, zero, one, two), ones(x.len(), one), zero) == zeros(x.len(), zero),
{
    let d = cheb_matrix(x, zero, one, two);
    assert forall|i: int| 0 <= i < x.len() implies #[trigger] mat_vec(d, ones(x.len(), one), zero)[i] == zero by {
        lemma_cheb_row_prefix(x, i, x.len() as int, zero, one, two);
        let s = cheb_row_sum(x, i, x.len() as int, zero, one, two);
        assert(d[i].len() == x.len());
        assert(s.add_spec(s.neg_spec()) == zero) by {
            reveal(additive_group);
        }
    }
    assert(mat_vec(d, ones(x.len(), one), zero) =~= zeros(x.len(), zero));
}

/// `(x − y) + (y + one) = x + one`.
proof fn lemma_difference_shift<T: FieldOps>(x: T, y: T, one: T, zero: T)
    requires
        add_commutes_associates::<T>(),
        additive_group(zero),
    ensures
        x.sub_spec(y).add_spec(y.add_spec(one)) == x.add_spec(one),
{
    reveal(add_commutes_associates);
    reveal(additive_group);
    let ny = y.neg_spec();
    assert(x.sub_spec(y) == x.add_spec(ny));
    assert(x.add_spec(ny).add_spec(y.add_spec(one)) == x.add_spec(ny.add_spec(y.add_spec(one))));
    assert(ny.add_spec(y.add_spec(one)) == ny.add_spec(y).add_spec(one));
    assert(ny.add_spec(y) == y.add_spec(ny));
    assert(y.add_spec(ny) == zero);
    assert(zero.add_spec(one) == one.add_spec(zero));
    assert(one.add_spec(zero) == one);
}

/// `c·p + c·q = c·(p + q)`.
proof fn lemma_left_distributes<T: Arith>(c: T, p: T, q: T)
    requires
        mul_commutes::<T>(),
        distributes::<T>(),
    ensures
        c.mul_spec(p).add_spec(c.mul_spec(q)) == c.mul_spec(p.add_spec(q)),
{
    reveal(mul_commutes);
    reveal(distributes);
    assert(p.add_spec(q).mul_spec(c) == p.mul_spec(c).add_spec(q.mul_spec(c)));
}

/// `w + (a + v) = a + (w + v)`, and `(w + q) − q = w`.
proof fn lemma_add_rearrange<T: FieldOps>(w: T, a: T, v: T, q: T, zero: T)
    requires
        add_commutes_associates::<T>(),
        additive_group(zero),
    ensures
        w.add_spec(a.add_spec(v)) == a.add_spec(w.add_spec(v)),
        w.add_spec(q).sub_spec(q) == w,
{
    reveal(add_commutes_associates);
    reveal(additive_group);
    assert(w.add_spec(a.add_spec(v)) == w.add_spec(a).add_spec(v));
    assert(w.add_spec(a) == a.add_spec(w));
    assert(a.add_spec(w).add_spec(v) == a.add_spec(w.add_spec(v)));
    assert(w.add_spec(q).sub_spec(q) == w.add_spec(q).add_spec(q.neg_spec()));
    assert(w.add_spec(q).add_spec(q.neg_spec()) == w.add_spec(q.add_spec(q.neg_spec())));
    assert(q.add_spec(q.neg_spec()) == zero);
}

/// The map from the reference interval to `[a, b]` is affine: the images of
/// any two reference points differ by `half·(b − a)` times their difference,
/// over a commutative ring. Equally spaced reference nodes stay equally spaced.
pub proof fn lemma_physical_map_is_affine<T: FieldOps>(x: T, y: T, a: T, b: T, half: T, one: T, zero: T)
    requires
        mul_commutes::<T>(),
        distributes::<T>(),
        add_commutes_associates::<T>(),
        additive_group(zero),
    ensures
        physical_point(x, a, b, half, one).sub_spec(physical_point(y, a, b, half, one)) == half.mul_spec(
            b.sub_spec(a),
        ).mul_spec(x.sub_spec(y)),
{
    let c = half.mul_spec(b.sub_spec(a));
    let w = c.mul_spec(x.sub_spec(y));
    let cy = c.mul_spec(y.add_spec(one));
    lemma_difference_shift(x, y, one, zero);
    lemma_left_distributes(c, x.sub_spec(y), y.add_spec(one));
    lemma_add_rearrange(w, a, cy, a.add_spec(cy), zero);
    assert(w.add_spec(a.add_spec(cy)) == physical_point(x, a, b, half, one));
}

proof fn lemma_neg_one_plus_one<T: FieldOps>(one: T, zero: T)
    requires
        add_commutes_associates::<T>(),
        additive_group(zero),
    ensures
        one.neg_spec().add_spec(one) == zero,
{
    reveal(add_commutes_associates);
    reveal(additive_group);
    assert(one.neg_spec().add_spec(one) == one.add_spec(one.neg_spec()));
}

proof fn lemma_add_difference<T: FieldOps>(a: T, b: T, zero: T)
    requires
        add_commutes_associates::<T>(),
        additive_group(zero),
    ensures
        a.add_spec(zero) == a,
        a.add_spec(b.sub_spec(a)) == b,
{
    reveal(add_commutes_associates);
    reveal(additive_group);
    assert(b.sub_spec(a) == b.add_spec(a.neg_spec()));
    assert(a.add_spec(b.add_spec(a.neg_spec())) == a.add_spec(a.neg_spec().add_spec(b)));
    assert(a.add_spec(a.neg_spec().add_spec(b)) == a.add_spec(a.neg_spec()).add_spec(b));
    assert(a.add_spec(a.neg_spec()) == zero);
    assert(zero.add_spec(b) == b.add_spec(zero));
}

proof fn lemma_half_of_double<T: Arith>(half: T, t: T, one: T)
    requires
        half.mul_spec(one.add_spec(one)) == one,
        left_unit(one),
        mul_commutes::<T>(),
        mul_associates::<T>(),
    ensures
        half.mul_spec(t).mul_spec(one.add_spec(one)) == t,
{
    reveal(mul_commutes);
    reveal(mul_associates);
    let two = one.add_spec(one);
    assert(half.mul_spec(t).mul_spec(two) == half.mul_spec(t.mul_spec(two)));
    assert(t.mul_spec(two) == two.mul_spec(t));
    assert(half.mul_spec(two.mul_spec(t)) == half.mul_spec(two).mul_spec(t));
}

/// The map from the reference interval to `[a, b]` sends the end `−one` to `a`
/// and, where `half` is the inverse of `one + one`, the end `one` to `b`, over
/// a commutative ring.
pub proof fn lemma_physical_map_endpoints<T: FieldOps>(a: T, b: T, half: T, one: T, zero: T)
    requires
        half.mul_spec(one.add_spec(one)) == one,
        left_unit(one),
        zero_identities(zero),
        mul_commutes::<T>(),
        mul_associates::<T>(),
        add_commutes_associates::<T>(),
        additive_group(zero),
    ensures
        physical_point(one.neg_spec(), a, b, half, one) == a,
        physical_point(one, a, b, half, one) == b,
{
    let c = half.mul_spec(b.sub_spec(a));
    lemma_neg_one_plus_one(one, zero);
    assert(c.mul_spec(zero) == zero);
    lemma_add_difference(a, b, zero);
    lemma_half_of_double(half, b.sub_spec(a), one);
}

} // verus!
