//! Multi-interval collocation domains: per-interval collocation data, and the
//! assembly of quantities defined interval by interval into global ones.
use vstd::prelude::*;
use std::ops::Neg;
use vstd::std_specs::ops::{AddSpec, DivSpec, MulSpec, NegSpec, SubSpec};
use crate::arith::{Arith, FieldOps, exact, field_exact, field_total, total};
use crate::dual::{Dual, constants, lift_matrix, lift_vec};
use crate::primal::{domain_projects, matrix_reals, reals};
use crate::tangent::constant_matrix;
use crate::matrix::Matrix;

verus! {

/// The collocation data of one interval, in the scalar type of the computation:
/// the collocation points mapped to the physical interval, and the
/// differentiation matrix scaled to it.
pub struct CollocationInterval<T> {
    pub points: Vec<T>,
    pub dmatrix: Matrix<T>,
}

/// A domain split into intervals that all carry the same number of collocation points.
pub struct CollocationDomain<T> {
    pub intervals: Vec<CollocationInterval<T>>,
}

impl<T> CollocationDomain<T> {
    /// The number of intervals.
    pub open spec fn n_intervals(&self) -> nat {
        self.intervals@.len()
    }

    /// The number of collocation points per interval (read off the first interval).
    pub open spec fn n_per(&self) -> nat {
        self.intervals@[0].points@.len()
    }

    /// The points of interval `i`.
    pub open spec fn points_of(&self, i: int) -> Seq<T> {
        self.intervals@[i].points@
    }

    /// The differentiation matrix of interval `i`.
    pub open spec fn dmatrix_of(&self, i: int) -> Seq<Seq<T>> {
        self.intervals@[i].dmatrix@
    }

    /// At least one interval, at least two points per interval, and every interval
    /// with `n_per()` points and an `n_per() × n_per()` differentiation matrix.
    pub open spec fn wf(&self) -> bool {
        &&& self.n_intervals() >= 1
        &&& self.n_per() >= 2
        &&& forall|i: int|
            0 <= i < self.n_intervals() ==> {
                &&& (#[trigger] self.intervals@[i]).points@.len() == self.n_per()
                &&& self.intervals@[i].dmatrix.is_square(self.n_per())
            }
    }
}


impl<T: Copy> CollocationDomain<T> {
    /// The same collocation data with every value taken as a constant
    /// `x + zero·ε`, ready for evaluation on dual numbers.
    pub fn to_dual(&self, zero: T) -> (r: CollocationDomain<Dual<T>>)
        requires
            forall|i: int| 0 <= i < self.n_intervals() ==> (#[trigger] self.intervals@[i]).dmatrix.wf(),
        ensures
            r.n_intervals() == self.n_intervals(),
            forall|i: int|
                0 <= i < self.n_intervals() ==> {
                    &&& (#[trigger] r.intervals@[i]).points@ == constants(self.points_of(i), zero)
                    &&& r.intervals@[i].dmatrix.wf()
                    &&& r.intervals@[i].dmatrix.ncols == self.intervals@[i].dmatrix.ncols
                    &&& r.intervals@[i].dmatrix@.len() == self.dmatrix_of(i).len()
                    &&& forall|p: int|
                        0 <= p < self.dmatrix_of(i).len() ==> #[trigger] r.dmatrix_of(i)[p] == constants(
                            self.dmatrix_of(i)[p],
                            zero,
                        )
                },
            self.wf() ==> r.wf(),
            domain_projects(&r, self),
            forall|i: int| 0 <= i < r.n_intervals() ==> constant_matrix(#[trigger] r.dmatrix_of(i), zero),
    {
        let mut out: Vec<CollocationInterval<Dual<T>>> = Vec::new();
        let mut i: usize = 0;
        while i < self.intervals.len()
            invariant
                forall|j: int| 0 <= j < self.n_intervals() ==> (#[trigger] self.intervals@[j]).dmatrix.wf(),
                i <= self.n_intervals(),
                out@.len() == i,
                forall|j: int|
                    0 <= j < i ==> {
                        &&& (#[trigger] out@[j]).points@ == constants(self.points_of(j), zero)
                        &&& out@[j].dmatrix.wf()
                        &&& out@[j].dmatrix.ncols == self.intervals@[j].dmatrix.ncols
                        &&& out@[j].dmatrix@.len() == self.dmatrix_of(j).len()
                        &&& forall|p: int|
                            0 <= p < self.dmatrix_of(j).len() ==> #[trigger] out@[j].dmatrix@[p] == constants(
                                self.dmatrix_of(j)[p],
                                zero,
                            )
                    },
            decreases self.n_intervals() - i,
        {
            let iv = &self.intervals[i];
            let points = lift_vec(&iv.points, zero);
            let dmatrix = lift_matrix(&iv.dmatrix, zero);
            out.push(CollocationInterval { points, dmatrix });
            i += 1;
        }
        let r = CollocationDomain { intervals: out };
        proof {
            if self.wf() {
                assert(r.n_per() == self.n_per());
            }
            assert forall|i: int| 0 <= i < r.n_intervals() implies {
                &&& reals(#[trigger] r.points_of(i)) == self.points_of(i)
                &&& matrix_reals(r.dmatrix_of(i)) == self.dmatrix_of(i)
            } by {
                assert(reals(r.points_of(i)) =~= self.points_of(i));
                assert forall|p: int| 0 <= p < self.dmatrix_of(i).len() implies #[trigger] matrix_reals(
                    r.dmatrix_of(i),
                )[p] == self.dmatrix_of(i)[p] by {
                    assert(reals(r.dmatrix_of(i)[p]) =~= self.dmatrix_of(i)[p]);
                }
                assert(matrix_reals(r.dmatrix_of(i)) =~= self.dmatrix_of(i));
            }
            assert forall|i: int| 0 <= i < r.n_intervals() implies constant_matrix(#[trigger] r.dmatrix_of(i), zero) by {
                assert forall|p: int, q: int| 0 <= p < r.dmatrix_of(i).len() && 0 <= q < r.dmatrix_of(i)[p].len()
                    implies (#[trigger] r.dmatrix_of(i)[p][q]).eps == zero by {
                    assert(r.dmatrix_of(i)[p] == constants(self.dmatrix_of(i)[p], zero));
                }
            }
        }
        r
    }
}

/// Chebyshev–Gauss–Lobatto collocation with `n` points.
#[derive(Clone, Copy, Debug)]
pub struct Chebyshev {
    pub n: usize,
}

impl Chebyshev {
    /// Chebyshev collocation with `n` points; at least two are needed.
    pub fn new(n: usize) -> (r: Chebyshev)
        requires
            n >= 2,
        ensures
            r.n == n,
    {
        Chebyshev { n }
    }
}

/// The weight `c_i` of node `i` of `n`: `two` at both ends, `one` elsewhere.
pub open spec fn cheb_weight<T>(i: int, n: int, one: T, two: T) -> T {
    if i == 0 || i == n - 1 {
        two
    } else {
        one
    }
}

/// The sign `(−1)^(i+j)`.
pub open spec fn cheb_sign<T: Neg<Output = T>>(i: int, j: int, one: T) -> T {
    if (i + j) % 2 == 0 {
        one
    } else {
        one.neg_spec()
    }
}

/// Off-diagonal entry `(c_i / c_j)·(−1)^(i+j) / (x_i − x_j)`.
pub open spec fn cheb_off_diagonal<T: FieldOps>(x: Seq<T>, i: int, j: int, one: T, two: T) -> T {
    let n = x.len() as int;
    cheb_weight(i, n, one, two).div_spec(cheb_weight(j, n, one, two)).mul_spec(
        cheb_sign(i, j, one),
    ).div_spec(x[i].sub_spec(x[j]))
}

/// `zero` plus the off-diagonal entries of row `i` in columns `0..k`, left to right.
pub open spec fn cheb_row_sum<T: FieldOps>(x: Seq<T>, i: int, k: int, zero: T, one: T, two: T) -> T
    decreases k,
{
    if k <= 0 {
        zero
    } else if k - 1 == i {
        cheb_row_sum(x, i, k - 1, zero, one, two)
    } else {
        cheb_row_sum(x, i, k - 1, zero, one, two).add_spec(cheb_off_diagonal(x, i, k - 1, one, two))
    }
}

/// Entry `(i, j)` of the Chebyshev differentiation matrix on the nodes `x`:
/// the off-diagonal formula, and on the diagonal minus the sum of the row's
/// off-diagonal entries.
pub open spec fn cheb_entry<T: FieldOps>(x: Seq<T>, i: int, j: int, zero: T, one: T, two: T) -> T {
    if i == j {
        cheb_row_sum(x, i, x.len() as int, zero, one, two).neg_spec()
    } else {
        cheb_off_diagonal(x, i, j, one, two)
    }
}

impl Chebyshev {
    /// The Chebyshev differentiation matrix on the nodes `c`, where `zero`, `one`
    /// and `two` are those of the scalar type.
    pub fn dmatrix<T: FieldOps>(&self, c: &Vec<T>, zero: T, one: T, two: T) -> (r: Matrix<T>)
        requires
            field_total::<T>(),
            c@.len() >= 1,
        ensures
            r.is_square(c@.len()),
            field_exact::<T>() ==> forall|i: int, j: int|
                0 <= i < c@.len() && 0 <= j < c@.len() ==> #[trigger] r@[i][j] == cheb_entry(
                    c@,
                    i,
                    j,
                    zero,
                    one,
                    two,
                ),
    {
        let n = c.len();
        let mut rows: Vec<Vec<T>> = Vec::new();
        let mut i: usize = 0;
        while i < n
            invariant
                field_total::<T>(),
                n == c@.len(),
                n >= 1,
                i <= n,
                rows@.len() == i,
                forall|a: int| 0 <= a < i ==> (#[trigger] rows@[a])@.len() == n,
                field_exact::<T>() ==> forall|a: int, b: int|
                    0 <= a < i && 0 <= b < n ==> #[trigger] rows@[a]@[b] == cheb_entry(
                        c@,
                        a,
                        b,
                        zero,
                        one,
                        two,
                    ),
            decreases n - i,
        {
            let wi = if i == 0 || i == n - 1 { two } else { one };
            let mut row: Vec<T> = Vec::new();
            let mut sum = zero;
            let mut j: usize = 0;
            while j < n
                invariant
                    field_total::<T>(),
                    n == c@.len(),
                    n >= 1,
                    i < n,
                    j <= n,
                    wi == cheb_weight(i as int, n as int, one, two),
                    row@.len() == j,
                    field_exact::<T>() ==> sum == cheb_row_sum(c@, i as int, j as int, zero, one, two),
                    field_exact::<T>() ==> forall|b: int|
                        0 <= b < j && b != i ==> #[trigger] row@[b] == cheb_off_diagonal(
                            c@,
                            i as int,
                            b,
                            one,
                            two,
                        ),
                decreases n - j,
            {
                if i != j {
                    let wj = if j == 0 || j == n - 1 { two } else { one };
                    assert((i % 2 == j % 2) <==> ((i + j) % 2 == 0));
                    let sign = if i % 2 == j % 2 { one } else { one.neg() };
                    let ratio = wi / wj;
                    let signed = ratio * sign;
                    let gap = c[i] - c[j];
                    let entry = signed / gap;
                    row.push(entry);
                    sum = sum + entry;
                } else {
                    row.push(zero);
                }
                j += 1;
            }
            let diag = sum.neg();
            row.set(i, diag);
            rows.push(row);
            i += 1;
        }
        let r = Matrix { ncols: n, rows };
        assert forall|a: int| 0 <= a < r@.len() implies #[trigger] r@[a].len() == n by {
            assert(r@[a] == r.rows@[a]@);
        }
        assert forall|a: int, b: int| 0 <= a < n && 0 <= b < n implies #[trigger] r@[a][b] == rows@[a]@[b] by {
            assert(r@[a] == r.rows@[a]@);
        }
        r
    }
}


/// The point of `[a, b]` that `x ∈ [−1, 1]` maps to: `a + half·(b − a)·(x + one)`.
pub open spec fn physical_point<T: Arith>(x: T, a: T, b: T, half: T, one: T) -> T {
    a.add_spec(half.mul_spec(b.sub_spec(a)).mul_spec(x.add_spec(one)))
}

/// The points `xs` mapped from `[−1, 1]` to `[a, b]`.
pub open spec fn physical_points<T: Arith>(xs: Seq<T>, a: T, b: T, half: T, one: T) -> Seq<T> {
    Seq::new(xs.len(), |k: int| physical_point(xs[k], a, b, half, one))
}

/// Every entry of `d` multiplied by `s`.
pub open spec fn scaled<T: Arith>(d: Seq<Seq<T>>, s: T) -> Seq<Seq<T>> {
    Seq::new(d.len(), |i: int| Seq::new(d[i].len(), |j: int| d[i][j].mul_spec(s)))
}

/// The factor `two / (b − a)` that the chain rule brings in when the reference
/// interval `[−1, 1]` is mapped to `[a, b]`.
pub open spec fn chain_factor<T: FieldOps>(a: T, b: T, two: T) -> T {
    two.div_spec(b.sub_spec(a))
}

/// Computes `d` with every entry multiplied by `s`.
pub fn scale_matrix<T: Arith>(d: &Matrix<T>, s: T) -> (r: Matrix<T>)
    requires
        total::<T>(),
        d.wf(),
    ensures
        r.wf(),
        r.ncols == d.ncols,
        r@.len() == d@.len(),
        exact::<T>() ==> r@ == scaled(d@, s),
{
    let n = d.rows.len();
    let mut rows: Vec<Vec<T>> = Vec::new();
    let mut i: usize = 0;
    while i < n
        invariant
            total::<T>(),
            d.wf(),
            n == d@.len(),
            i <= n,
            rows@.len() == i,
            forall|a: int| 0 <= a < i ==> (#[trigger] rows@[a])@.len() == d.ncols,
            exact::<T>() ==> forall|a: int| 0 <= a < i ==> (#[trigger] rows@[a])@ == scaled(d@, s)[a],
        decreases n - i,
    {
        let src = &d.rows[i];
        assert(src@ == d@[i as int]);
        let m = src.len();
        let mut row: Vec<T> = Vec::new();
        let mut j: usize = 0;
        while j < m
            invariant
                total::<T>(),
                m == src@.len(),
                j <= m,
                row@.len() == j,
                exact::<T>() ==> forall|b: int| 0 <= b < j ==> #[trigger] row@[b] == src@[b].mul_spec(s),
            decreases m - j,
        {
            row.push(src[j] * s);
            j += 1;
        }
        proof {
            if exact::<T>() {
                assert(row@ =~= scaled(d@, s)[i as int]);
            }
        }
        rows.push(row);
        i += 1;
    }
    let r = Matrix { ncols: d.ncols, rows };
    assert forall|a: int| 0 <= a < r@.len() implies #[trigger] r@[a] == rows@[a]@ by {}
    proof {
        if exact::<T>() {
            assert(r@ =~= scaled(d@, s));
        }
    }
    r
}

/// One interval `[global_a, global_b]` of a multi-interval domain, carrying the
/// collocation points of the reference interval `[−1, 1]` and their
/// differentiation matrix.
pub struct Interval<T> {
    pub local_collocation_points: Vec<T>,
    pub local_dmatrix: Matrix<T>,
    pub global_a: T,
    pub global_b: T,
}

impl<T> Interval<T> {
    /// The differentiation matrix is square, one row per collocation point.
    pub open spec fn wf(&self) -> bool {
        self.local_dmatrix.is_square(self.local_collocation_points@.len())
    }
}

impl<T: Arith> Interval<T> {
    /// The collocation points mapped to `[global_a, global_b]`:
    /// `x ↦ a + half·(b − a)·(x + one)`, where `half` and `one` are those of `T`.
    pub fn map_to_physical(&self, half: T, one: T) -> (r: Vec<T>)
        requires
            total::<T>(),
        ensures
            r@.len() == self.local_collocation_points@.len(),
            exact::<T>() ==> r@ == physical_points(
                self.local_collocation_points@,
                self.global_a,
                self.global_b,
                half,
                one,
            ),
    {
        let a = self.global_a;
        let b = self.global_b;
        let n = self.local_collocation_points.len();
        let mut out: Vec<T> = Vec::new();
        let mut k: usize = 0;
        while k < n
            invariant
                total::<T>(),
                n == self.local_collocation_points@.len(),
                a == self.global_a,
                b == self.global_b,
                k <= n,
                out@.len() == k,
                exact::<T>() ==> forall|j: int| 0 <= j < k ==> #[trigger] out@[j] == physical_point(
                    self.local_collocation_points@[j],
                    a,
                    b,
                    half,
                    one,
                ),
            decreases n - k,
        {
            let x = self.local_collocation_points[k];
            let width = b - a;
            let scale = half * width;
            let shifted = x + one;
            let offset = scale * shifted;
            out.push(a + offset);
            k += 1;
        }
        proof {
            if exact::<T>() {
                assert(out@ =~= physical_points(self.local_collocation_points@, a, b, half, one));
            }
        }
        out
    }
}

impl<T: FieldOps> Interval<T> {
    /// The interval `[a, b]` with the collocation `poly` on the reference nodes
    /// `nodes`: its differentiation matrix is the one `poly` gives on them.
    pub fn new(poly: Chebyshev, nodes: Vec<T>, a: T, b: T, zero: T, one: T, two: T) -> (r: Interval<T>)
        requires
            field_total::<T>(),
            nodes@.len() >= 1,
        ensures
            r.wf(),
            r.local_collocation_points@ == nodes@,
            r.global_a == a,
            r.global_b == b,
            field_exact::<T>() ==> forall|i: int, j: int|
                0 <= i < nodes@.len() && 0 <= j < nodes@.len() ==> #[trigger] r.local_dmatrix@[i][j]
                    == cheb_entry(nodes@, i, j, zero, one, two),
    {
        let local_dmatrix = poly.dmatrix(&nodes, zero, one, two);
        Interval { local_collocation_points: nodes, local_dmatrix, global_a: a, global_b: b }
    }

    /// Reference collocation point `n`.
    pub fn get_local_collocation_point(&self, n: usize) -> (r: T)
        requires
            n < self.local_collocation_points@.len(),
        ensures
            r == self.local_collocation_points@[n as int],
    {
        self.local_collocation_points[n]
    }

    /// The reference collocation points.
    pub fn collocation_points(&self) -> (r: &Vec<T>)
        ensures
            r@ == self.local_collocation_points@,
    {
        &self.local_collocation_points
    }


    /// The differentiation matrix for the physical interval: the reference matrix
    /// times `two / (b − a)`, the factor that the chain rule brings in.
    pub fn scaled_dmatrix(&self, two: T) -> (r: Matrix<T>)
        requires
            field_total::<T>(),
            self.wf(),
        ensures
            r.is_square(self.local_collocation_points@.len()),
            field_exact::<T>() ==> r@ == scaled(
                self.local_dmatrix@,
                chain_factor(self.global_a, self.global_b, two),
            ),
    {
        let width = self.global_b - self.global_a;
        let factor = two / width;
        scale_matrix(&self.local_dmatrix, factor)
    }
}


/// The blocks `blocks[0] + blocks[1] + … + blocks[k−1]`, concatenated.
pub open spec fn concat_prefix<T>(blocks: Seq<Seq<T>>, k: int) -> Seq<T>
    decreases k,
{
    if k <= 0 {
        Seq::empty()
    } else {
        concat_prefix(blocks, k - 1) + blocks[k - 1]
    }
}

/// Copies `v` entry by entry.
pub fn copy_vec<T: Copy>(v: &Vec<T>) -> (r: Vec<T>)
    ensures
        r@ == v@,
{
    let mut out: Vec<T> = Vec::new();
    let mut k: usize = 0;
    while k < v.len()
        invariant
            k <= v@.len(),
            out@ == v@.subrange(0, k as int),
        decreases v@.len() - k,
    {
        out.push(v[k]);
        k += 1;
        assert(out@ =~= v@.subrange(0, k as int));
    }
    assert(out@ =~= v@);
    out
}

/// A domain `[a, b]` split at `breakpoints` into intervals, each carrying the
/// same collocation.
pub struct MultiIntervalDomain<T> {
    pub interval: Vec<Interval<T>>,
    pub breakpoints: Vec<T>,
}

impl<T> MultiIntervalDomain<T> {
    /// The number of intervals.
    pub open spec fn n_intervals(&self) -> nat {
        self.interval@.len()
    }

    /// The number of collocation points per interval (read off the first interval).
    pub open spec fn n_per(&self) -> nat {
        self.interval@[0].local_collocation_points@.len()
    }

    /// At least one interval, and every interval well formed with `n_per()` points.
    pub open spec fn uniform(&self) -> bool {
        &&& self.n_intervals() >= 1
        &&& forall|i: int|
            0 <= i < self.n_intervals() ==> {
                &&& (#[trigger] self.interval@[i]).wf()
                &&& self.interval@[i].local_collocation_points@.len() == self.n_per()
            }
    }
}

impl<T: FieldOps> MultiIntervalDomain<T> {
    /// The scaled differentiation matrix of every interval.
    pub open spec fn scaled_blocks(&self, two: T) -> Seq<Seq<Seq<T>>> {
        Seq::new(
            self.n_intervals(),
            |i: int|
                scaled(
                    self.interval@[i].local_dmatrix@,
                    chain_factor(self.interval@[i].global_a, self.interval@[i].global_b, two),
                ),
        )
    }
}

/// Block `i` of the global matrix starts at `i·step` and, for `i < n`, ends
/// within `(n − 1)·step + step + 1`.
proof fn lemma_block_start(i: int, n: int, step: int)
    requires
        0 <= i < n,
        0 <= step,
    ensures
        0 <= i * step <= (n - 1) * step,
{
    assert(0 <= i * step <= (n - 1) * step) by (nonlinear_arith)
        requires
            0 <= i < n,
            0 <= step,
    ;
}

/// Entry `(gr, gc)` of the global matrix after adding the blocks of the first
/// `k` intervals onto `zero`: block `i` covers rows and columns
/// `i·step .. i·step + n_per`.
pub open spec fn assembled<T: Arith>(
    blocks: Seq<Seq<Seq<T>>>,
    step: int,
    n_per: int,
    gr: int,
    gc: int,
    k: int,
    zero: T,
) -> T
    decreases k,
{
    if k <= 0 {
        zero
    } else {
        let s = assembled(blocks, step, n_per, gr, gc, k - 1, zero);
        let start = (k - 1) * step;
        if start <= gr < start + n_per && start <= gc < start + n_per {
            s.add_spec(blocks[k - 1][gr - start][gc - start])
        } else {
            s
        }
    }
}

impl<T: FieldOps> MultiIntervalDomain<T> {
    /// `n_interval` intervals between consecutive `breakpoints`, each with the
    /// Chebyshev collocation on the `n_collocate` reference `nodes`.
    pub fn new(
        n_interval: usize,
        breakpoints: Vec<T>,
        n_collocate: usize,
        nodes: &Vec<T>,
        zero: T,
        one: T,
        two: T,
    ) -> (r: MultiIntervalDomain<T>)
        requires
            field_total::<T>(),
            breakpoints@.len() == n_interval + 1,
            n_collocate >= 2,
            nodes@.len() == n_collocate,
        ensures
            r.n_intervals() == n_interval,
            r.breakpoints@ == breakpoints@,
            forall|i: int|
                0 <= i < n_interval ==> {
                    &&& (#[trigger] r.interval@[i]).wf()
                    &&& r.interval@[i].local_collocation_points@ == nodes@
                    &&& r.interval@[i].global_a == breakpoints@[i]
                    &&& r.interval@[i].global_b == breakpoints@[i + 1]
                },
            field_exact::<T>() ==> forall|i: int, p: int, q: int|
                0 <= i < n_interval && 0 <= p < n_collocate && 0 <= q < n_collocate
                    ==> #[trigger] r.interval@[i].local_dmatrix@[p][q] == cheb_entry(
                    nodes@,
                    p,
                    q,
                    zero,
                    one,
                    two,
                ),
    {
        let cheb = Chebyshev::new(n_collocate);
        let mut intervals: Vec<Interval<T>> = Vec::new();
        let mut i: usize = 0;
        while i < n_interval
            invariant
                field_total::<T>(),
                breakpoints@.len() == n_interval + 1,
                nodes@.len() == n_collocate,
                n_collocate >= 2,
                i <= n_interval,
                intervals@.len() == i,
                forall|j: int|
                    0 <= j < i ==> {
                        &&& (#[trigger] intervals@[j]).wf()
                        &&& intervals@[j].local_collocation_points@ == nodes@
                        &&& intervals@[j].global_a == breakpoints@[j]
                        &&& intervals@[j].global_b == breakpoints@[j + 1]
                    },
                field_exact::<T>() ==> forall|j: int, p: int, q: int|
                    0 <= j < i && 0 <= p < n_collocate && 0 <= q < n_collocate
                        ==> #[trigger] intervals@[j].local_dmatrix@[p][q] == cheb_entry(
                        nodes@,
                        p,
                        q,
                        zero,
                        one,
                        two,
                    ),
            decreases n_interval - i,
        {
            let iv = Interval::new(cheb, copy_vec(nodes), breakpoints[i], breakpoints[i + 1], zero, one, two);
            intervals.push(iv);
            i += 1;
        }
        MultiIntervalDomain { interval: intervals, breakpoints }
    }

    /// Interval `n`.
    pub fn get_interval(&self, n: usize) -> (r: &Interval<T>)
        requires
            n < self.n_intervals(),
        ensures
            *r == self.interval@[n as int],
    {
        &self.interval[n]
    }

    /// The collocation points of every interval mapped to the physical domain,
    /// interval after interval (points shared by neighbouring intervals repeat).
    pub fn global_collocation_points_raw(&self, half: T, one: T) -> (r: Vec<T>)
        requires
            total::<T>(),
        ensures
            self.uniform() ==> r@.len() == self.n_intervals() * self.n_per(),
            exact::<T>() ==> r@ == concat_prefix(
                Seq::new(
                    self.n_intervals(),
                    |i: int|
                        physical_points(
                            self.interval@[i].local_collocation_points@,
                            self.interval@[i].global_a,
                            self.interval@[i].global_b,
                            half,
                            one,
                        ),
                ),
                self.n_intervals() as int,
            ),
    {
        let ghost blocks = Seq::new(
            self.n_intervals(),
            |i: int|
                physical_points(
                    self.interval@[i].local_collocation_points@,
                    self.interval@[i].global_a,
                    self.interval@[i].global_b,
                    half,
                    one,
                ),
        );
        let mut pts: Vec<T> = Vec::new();
        let mut i: usize = 0;
        while i < self.interval.len()
            invariant
                total::<T>(),
                i <= self.n_intervals(),
                blocks.len() == self.n_intervals(),
                forall|j: int| 0 <= j < self.n_intervals() ==> #[trigger] blocks[j] == physical_points(
                    self.interval@[j].local_collocation_points@,
                    self.interval@[j].global_a,
                    self.interval@[j].global_b,
                    half,
                    one,
                ),
                exact::<T>() ==> pts@ == concat_prefix(blocks, i as int),
                self.uniform() ==> pts@.len() == i * self.n_per(),
            decreases self.n_intervals() - i,
        {
            let local_pts = self.interval[i].map_to_physical(half, one);
            let ghost before = pts@;
            let mut k: usize = 0;
            while k < local_pts.len()
                invariant
                    k <= local_pts@.len(),
                    pts@ == before + local_pts@.subrange(0, k as int),
                decreases local_pts@.len() - k,
            {
                pts.push(local_pts[k]);
                k += 1;
                assert(pts@ =~= before + local_pts@.subrange(0, k as int));
            }
            assert(local_pts@.subrange(0, local_pts@.len() as int) =~= local_pts@);
            proof {
                if self.uniform() {
                    assert(self.interval@[i as int].local_collocation_points@.len() == self.n_per());
                    assert(i * self.n_per() + self.n_per() == (i + 1) * self.n_per()) by (nonlinear_arith);
                }
            }
            i += 1;
        }
        pts
    }

    /// The collocation data of every interval: its points mapped to the physical
    /// interval and its differentiation matrix scaled to it.
    pub fn collocation(&self, half: T, one: T, two: T) -> (r: CollocationDomain<T>)
        requires
            field_total::<T>(),
            self.uniform(),
        ensures
            r.n_intervals() == self.n_intervals(),
            forall|i: int|
                0 <= i < self.n_intervals() ==> {
                    &&& (#[trigger] r.intervals@[i]).points@.len() == self.n_per()
                    &&& r.intervals@[i].dmatrix.is_square(self.n_per())
                },
            self.n_per() >= 2 ==> r.wf(),
            field_exact::<T>() ==> forall|i: int|
                0 <= i < self.n_intervals() ==> {
                    &&& (#[trigger] r.intervals@[i]).points@ == physical_points(
                        self.interval@[i].local_collocation_points@,
                        self.interval@[i].global_a,
                        self.interval@[i].global_b,
                        half,
                        one,
                    )
                    &&& r.intervals@[i].dmatrix@ == scaled(
                        self.interval@[i].local_dmatrix@,
                        chain_factor(self.interval@[i].global_a, self.interval@[i].global_b, two),
                    )
                },
    {
        let mut out: Vec<CollocationInterval<T>> = Vec::new();
        let mut i: usize = 0;
        while i < self.interval.len()
            invariant
                field_total::<T>(),
                self.uniform(),
                i <= self.n_intervals(),
                out@.len() == i,
                forall|j: int|
                    0 <= j < i ==> {
                        &&& (#[trigger] out@[j]).points@.len() == self.n_per()
                        &&& out@[j].dmatrix.is_square(self.n_per())
                    },
                field_exact::<T>() ==> forall|j: int|
                    0 <= j < i ==> {
                        &&& (#[trigger] out@[j]).points@ == physical_points(
                            self.interval@[j].local_collocation_points@,
                            self.interval@[j].global_a,
                            self.interval@[j].global_b,
                            half,
                            one,
                        )
                        &&& out@[j].dmatrix@ == scaled(
                            self.interval@[j].local_dmatrix@,
                            chain_factor(self.interval@[j].global_a, self.interval@[j].global_b, two),
                        )
                    },
            decreases self.n_intervals() - i,
        {
            let iv = &self.interval[i];
            assert(iv.wf());
            let points = iv.map_to_physical(half, one);
            let dmatrix = iv.scaled_dmatrix(two);
            out.push(CollocationInterval { points, dmatrix });
            i += 1;
        }
        let r = CollocationDomain { intervals: out };
        assert(r.n_per() == self.n_per());
        r
    }

    /// The differentiation matrix of the whole domain on its global unknowns,
    /// where neighbouring intervals share their common endpoint: the scaled
    /// matrix of interval `i` is added into the block that starts at row and
    /// column `i·(n_per − 1)`, interval after interval, onto `zero`.
    pub fn diff_matrix(&self, two: T, zero: T) -> (r: Matrix<T>)
        requires
            field_total::<T>(),
            self.uniform(),
            self.n_per() >= 1,
            self.n_per() + (self.n_intervals() - 1) * (self.n_per() - 1) <= usize::MAX,
        ensures
            r.is_square((self.n_per() + (self.n_intervals() - 1) * (self.n_per() - 1)) as nat),
            field_exact::<T>() ==> forall|gr: int, gc: int|
                0 <= gr < r@.len() && 0 <= gc < r@.len() ==> #[trigger] r@[gr][gc] == assembled(
                    self.scaled_blocks(two),
                    self.n_per() - 1,
                    self.n_per() as int,
                    gr,
                    gc,
                    self.n_intervals() as int,
                    zero,
                ),
    {
        let n_intervals = self.interval.len();
        let n_per = self.interval[0].local_collocation_points.len();
        let step = n_per - 1;
        proof {
            lemma_block_start(n_intervals as int - 1, n_intervals as int, step as int);
        }
        let n_total = n_per + (n_intervals - 1) * step;
        let ghost blocks = self.scaled_blocks(two);

        let mut ds: Vec<Matrix<T>> = Vec::new();
        let mut i: usize = 0;
        while i < n_intervals
            invariant
                field_total::<T>(),
                self.uniform(),
                n_intervals == self.n_intervals(),
                n_per == self.n_per(),
                blocks == self.scaled_blocks(two),
                i <= n_intervals,
                ds@.len() == i,
                forall|j: int| 0 <= j < i ==> (#[trigger] ds@[j]).is_square(n_per as nat),
                field_exact::<T>() ==> forall|j: int| 0 <= j < i ==> (#[trigger] ds@[j])@ == blocks[j],
            decreases n_intervals - i,
        {
            ds.push(self.interval[i].scaled_dmatrix(two));
            i += 1;
        }

        let mut rows: Vec<Vec<T>> = Vec::new();
        let mut gr: usize = 0;
        while gr < n_total
            invariant
                field_total::<T>(),
                n_intervals == self.n_intervals(),
                n_intervals >= 1,
                n_per == self.n_per(),
                step == n_per - 1,
                n_total == n_per + (n_intervals - 1) * step,
                blocks == self.scaled_blocks(two),
                ds@.len() == n_intervals,
                forall|j: int| 0 <= j < n_intervals ==> (#[trigger] ds@[j]).is_square(n_per as nat),
                field_exact::<T>() ==> forall|j: int| 0 <= j < n_intervals ==> (#[trigger] ds@[j])@ == blocks[j],
                gr <= n_total,
                rows@.len() == gr,
                forall|a: int| 0 <= a < gr ==> (#[trigger] rows@[a])@.len() == n_total,
                field_exact::<T>() ==> forall|a: int, b: int|
                    0 <= a < gr && 0 <= b < n_total ==> #[trigger] rows@[a]@[b] == assembled(
                        blocks,
                        step as int,
                        n_per as int,
                        a,
                        b,
                        n_intervals as int,
                        zero,
                    ),
            decreases n_total - gr,
        {
            let mut row: Vec<T> = Vec::new();
            let mut gc: usize = 0;
            while gc < n_total
                invariant
                    field_total::<T>(),
                    n_intervals >= 1,
                    step == n_per - 1,
                    n_total == n_per + (n_intervals - 1) * step,
                    ds@.len() == n_intervals,
                    forall|j: int| 0 <= j < n_intervals ==> (#[trigger] ds@[j]).is_square(n_per as nat),
                    field_exact::<T>() ==> forall|j: int| 0 <= j < n_intervals ==> (#[trigger] ds@[j])@ == blocks[j],
                    gr < n_total,
                    gc <= n_total,
                    row@.len() == gc,
                    field_exact::<T>() ==> forall|b: int| 0 <= b < gc ==> #[trigger] row@[b] == assembled(
                        blocks,
                        step as int,
                        n_per as int,
                        gr as int,
                        b,
                        n_intervals as int,
                        zero,
                    ),
                decreases n_total - gc,
            {
                let mut acc = zero;
                let mut k: usize = 0;
                while k < n_intervals
                    invariant
                        field_total::<T>(),
                        n_intervals >= 1,
                        step == n_per - 1,
                        n_total == n_per + (n_intervals - 1) * step,
                        ds@.len() == n_intervals,
                        forall|j: int| 0 <= j < n_intervals ==> (#[trigger] ds@[j]).is_square(n_per as nat),
                        field_exact::<T>() ==> forall|j: int| 0 <= j < n_intervals ==> (#[trigger] ds@[j])@ == blocks[j],
                        gr < n_total,
                        gc < n_total,
                        k <= n_intervals,
                        field_exact::<T>() ==> acc == assembled(
                            blocks,
                            step as int,
                            n_per as int,
                            gr as int,
                            gc as int,
                            k as int,
                            zero,
                        ),
                    decreases n_intervals - k,
                {
                    proof {
                        lemma_block_start(k as int, n_intervals as int, step as int);
                    }
                    let start = k * step;
                    if start <= gr && gr < start + n_per && start <= gc && gc < start + n_per {
                        let entry = ds[k].get(gr - start, gc - start);
                        acc = acc + entry;
                    }
                    k += 1;
                }
                row.push(acc);
                gc += 1;
            }
            rows.push(row);
            gr += 1;
        }
        let r = Matrix { ncols: n_total, rows };
        assert forall|a: int| 0 <= a < r@.len() implies #[trigger] r@[a] == rows@[a]@ by {}
        r
    }
}

} // verus!
