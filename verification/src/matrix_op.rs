//! Matrix–vector products over any scalar type.
use vstd::prelude::*;
use vstd::std_specs::ops::{AddSpec, MulSpec};
use crate::arith::{Arith, exact, total};
use crate::matrix::Matrix;

verus! {

/// `zero + u[0]·row[0] + … + u[k−1]·row[k−1]`, accumulated left to right.
pub open spec fn dot_prefix<T: Arith>(row: Seq<T>, u: Seq<T>, k: int, zero: T) -> T
    decreases k,
{
    if k <= 0 {
        zero
    } else {
        dot_prefix(row, u, k - 1, zero).add_spec(u[k - 1].mul_spec(row[k - 1]))
    }
}

/// The product of a row with `u`, over as many entries as both have.
pub open spec fn row_dot<T: Arith>(row: Seq<T>, u: Seq<T>, zero: T) -> T {
    let k = if row.len() <= u.len() { row.len() } else { u.len() };
    dot_prefix(row, u, k as int, zero)
}

/// The product `d·u`: one entry per row of `d`.
pub open spec fn mat_vec<T: Arith>(d: Seq<Seq<T>>, u: Seq<T>, zero: T) -> Seq<T> {
    Seq::new(d.len(), |i: int| row_dot(d[i], u, zero))
}

/// Multiplies the matrix `d` by the vector `u`: entry `i` is
/// `zero + u[0]·d[i][0] + u[1]·d[i][1] + …`, pairing each row with `u`
/// over as many entries as both have.
pub fn apply_matrix<T: Arith>(d: &Matrix<T>, u: &Vec<T>, zero: T) -> (r: Vec<T>)
    requires
        total::<T>(),
    ensures
        r@.len() == d@.len(),
        exact::<T>() ==> r@ == mat_vec(d@, u@, zero),
{
    let n = d.rows.len();
    let mut out: Vec<T> = Vec::new();
    let mut i: usize = 0;
    while i < n
        invariant
            total::<T>(),
            n == d@.len(),
            i <= n,
            out@.len() == i,
            exact::<T>() ==> forall|j: int| 0 <= j < i ==> #[trigger] out@[j] == row_dot(d@[j], u@, zero),
        decreases n - i,
    {
        let row = &d.rows[i];
        assert(row@ == d@[i as int]);
        let m = if row.len() <= u.len() { row.len() } else { u.len() };
        let mut acc = zero;
        let mut k: usize = 0;
        while k < m
            invariant
                total::<T>(),
                m <= row@.len(),
                m <= u@.len(),
                k <= m,
                exact::<T>() ==> acc == dot_prefix(row@, u@, k as int, zero),
            decreases m - k,
        {
            let p = u[k] * row[k];
            acc = acc + p;
            k += 1;
        }
        out.push(acc);
        i += 1;
    }
    assert(exact::<T>() ==> out@ =~= mat_vec(d@, u@, zero));
    out
}

} // verus!
