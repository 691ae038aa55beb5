//! The data that a plot of a collocation solution shows: each collocation node
//! once, with its value, and the breakpoints between intervals.
use vstd::prelude::*;
use crate::arith::{Arith, exact, total};
use crate::multi_interval_domain::{MultiIntervalDomain, physical_point};

verus! {

/// The number of plotted nodes of `m` intervals of `p` nodes each, where every
/// interval after the first leaves out its first node: `p + (m − 1)(p − 1)`.
pub open spec fn plot_len(m: int, p: int) -> int {
    p + (m - 1) * (p - 1)
}

/// The number of nodes plotted for the first `i` intervals.
pub open spec fn plotted_before(i: int, p: int) -> int {
    if i == 0 {
        0
    } else {
        plot_len(i, p)
    }
}

/// The position among the plotted nodes of node `j` of interval `i`.
pub open spec fn plot_index(i: int, j: int, p: int) -> int {
    if i == 0 {
        j
    } else {
        plotted_before(i, p) + j - 1
    }
}

/// Node `j` of interval `i` is plotted: the first node of every interval after
/// the first is the last node of the interval before, and is left out.
pub open spec fn plotted(i: int, j: int) -> bool {
    i == 0 || j >= 1
}

proof fn lemma_plot_index_bound(a: int, b: int, i: int, p: int)
    requires
        0 <= a < i,
        0 <= b < p,
        plotted(a, b),
    ensures
        0 <= plot_index(a, b, p) < plotted_before(i, p),
{
    if a >= 1 {
        assert(0 <= (a - 1) * (p - 1) && (a - 1) * (p - 1) + p - 1 <= (i - 1) * (p - 1)) by (nonlinear_arith)
            requires
                1 <= a < i,
                0 <= b < p,
        ;
    } else if i >= 2 {
        assert(0 <= (i - 1) * (p - 1)) by (nonlinear_arith)
            requires
                i >= 2,
                p >= 1,
        ;
    }
}

proof fn lemma_plotted_step(i: int, p: int)
    requires
        i >= 0,
        p >= 1,
    ensures
        plotted_before(i + 1, p) == plotted_before(i, p) + p - (if i == 0 { 0int } else { 1int }),
        plotted_before(i, p) >= 0,
{
    if i >= 1 {
        assert(i * (p - 1) == (i - 1) * (p - 1) + (p - 1)) by (nonlinear_arith);
        assert((i - 1) * (p - 1) >= 0) by (nonlinear_arith)
            requires
                i >= 1,
                p >= 1,
        ;
    }
}

/// The nodes and values to plot for the solution `u` on `domain`: node `j` of
/// interval `i` at its physical position, with the value `u[i·p + j]`, each
/// interval after the first without its first node, which repeats the last node
/// of the interval before.
pub fn plot_points<T: Arith>(u: &Vec<T>, domain: &MultiIntervalDomain<T>, half: T, one: T) -> (r: (Vec<T>, Vec<T>))
    requires
        total::<T>(),
        domain.uniform(),
        domain.n_per() >= 1,
        u@.len() >= domain.n_intervals() * domain.n_per(),
    ensures
        r.0@.len() == plot_len(domain.n_intervals() as int, domain.n_per() as int),
        r.1@.len() == r.0@.len(),
        forall|i: int, j: int|
            0 <= i < domain.n_intervals() && 0 <= j < domain.n_per() && plotted(i, j) ==> #[trigger] r.1@[plot_index(
                i,
                j,
                domain.n_per() as int,
            )] == u@[i * domain.n_per() + j],
        exact::<T>() ==> forall|i: int, j: int|
            0 <= i < domain.n_intervals() && 0 <= j < domain.n_per() && plotted(i, j) ==> #[trigger] r.0@[plot_index(
                i,
                j,
                domain.n_per() as int,
            )] == physical_point(
                domain.interval@[i].local_collocation_points@[j],
                domain.interval@[i].global_a,
                domain.interval@[i].global_b,
                half,
                one,
            ),
{
    let m = domain.interval.len();
    let p = domain.interval[0].local_collocation_points.len();
    let u_len = u.len();
    let mut xs: Vec<T> = Vec::new();
    let mut us: Vec<T> = Vec::new();
    let mut i: usize = 0;
    while i < m
        invariant
            total::<T>(),
            domain.uniform(),
            m == domain.n_intervals(),
            p == domain.n_per(),
            p >= 1,
            u@.len() >= m * p,
            u_len == u@.len(),
            i <= m,
            xs@.len() == plotted_before(i as int, p as int),
            us@.len() == xs@.len(),
            forall|a: int, b: int|
                0 <= a < i && 0 <= b < p && plotted(a, b) ==> #[trigger] us@[plot_index(a, b, p as int)] == u@[a * p + b],
            exact::<T>() ==> forall|a: int, b: int|
                0 <= a < i && 0 <= b < p && plotted(a, b) ==> #[trigger] xs@[plot_index(a, b, p as int)] == physical_point(
                    domain.interval@[a].local_collocation_points@[b],
                    domain.interval@[a].global_a,
                    domain.interval@[a].global_b,
                    half,
                    one,
                ),
        decreases m - i,
    {
        let iv = &domain.interval[i];
        let pts = iv.map_to_physical(half, one);
        let start: usize = if i == 0 { 0 } else { 1 };
        proof {
            lemma_plotted_step(i as int, p as int);
        }
        let mut j: usize = start;
        while j < p
            invariant
                total::<T>(),
                domain.uniform(),
                m == domain.n_intervals(),
                p == domain.n_per(),
                p >= 1,
                u@.len() >= m * p,
                u_len == u@.len(),
                i < m,
                *iv == domain.interval@[i as int],
                pts@.len() == p,
                exact::<T>() ==> pts@ == crate::multi_interval_domain::physical_points(
                    iv.local_collocation_points@,
                    iv.global_a,
                    iv.global_b,
                    half,
                    one,
                ),
                start == (if i == 0 { 0usize } else { 1usize }),
                start <= j <= p,
                plotted_before(i as int, p as int) >= 0,
                xs@.len() == plotted_before(i as int, p as int) + j - start,
                us@.len() == xs@.len(),
                forall|a: int, b: int|
                    ((0 <= a < i && 0 <= b < p) || (a == i && start <= b < j)) && plotted(a, b)
                        ==> #[trigger] us@[plot_index(a, b, p as int)] == u@[a * p + b],
                exact::<T>() ==> forall|a: int, b: int|
                    ((0 <= a < i && 0 <= b < p) || (a == i && start <= b < j)) && plotted(a, b)
                        ==> #[trigger] xs@[plot_index(a, b, p as int)] == physical_point(
                        domain.interval@[a].local_collocation_points@[b],
                        domain.interval@[a].global_a,
                        domain.interval@[a].global_b,
                        half,
                        one,
                    ),
            decreases p - j,
        {
            assert(0 <= i * p && i * p + j < m * p) by (nonlinear_arith)
                requires
                    i < m,
                    j < p,
            ;
            let idx: usize = i * p + j;
            let ghost old_xs = xs@;
            let ghost old_us = us@;
            xs.push(pts[j]);
            us.push(u[idx]);
            proof {
                assert forall|a: int, b: int|
                    ((0 <= a < i && 0 <= b < p) || (a == i && start <= b <= j)) && plotted(a, b) implies plot_index(
                    a,
                    b,
                    p as int,
                ) < old_xs.len() || (a == i && b == j) by {
                    if a < i {
                        lemma_plot_index_bound(a, b, i as int, p as int);
                    }
                }
                assert(plot_index(i as int, j as int, p as int) == old_xs.len());
            }
            j += 1;
        }
        i += 1;
    }
    (xs, us)
}

/// The breakpoints between intervals: all but the first and the last.
pub fn interior_breakpoints<T: Copy>(breakpoints: &Vec<T>) -> (r: Vec<T>)
    requires
        breakpoints@.len() >= 2,
    ensures
        r@ == breakpoints@.subrange(1, breakpoints@.len() - 1),
{
    let n = breakpoints.len();
    let mut out: Vec<T> = Vec::new();
    let mut k: usize = 1;
    while k < n - 1
        invariant
            n == breakpoints@.len(),
            n >= 2,
            1 <= k <= n - 1,
            out@ == breakpoints@.subrange(1, k as int),
        decreases n - k,
    {
        out.push(breakpoints[k]);
        k += 1;
        assert(out@ =~= breakpoints@.subrange(1, k as int));
    }
    out
}

} // verus!
