//! LAPACK general band storage: the diagonals of a band matrix packed column by
//! column, with room above them for the fill-in of an LU factorisation.
use vstd::prelude::*;
use crate::matrix::Matrix;

verus! {

/// The leading dimension of the band storage of a matrix with `kl`
/// subdiagonals and `ku` superdiagonals: `2·kl + ku + 1` rows.
pub open spec fn band_rows(kl: int, ku: int) -> int {
    2 * kl + ku + 1
}

/// Entry `row` of column `j` of the band storage: entry `(i, j)` of `m` where
/// `row = kl + ku + i − j`, for `j − ku ≤ i ≤ j + kl` and `0 ≤ i < n`; `zero` elsewhere.
pub open spec fn band_entry<T>(m: Seq<Seq<T>>, n: int, kl: int, ku: int, j: int, row: int, zero: T) -> T {
    let i = row + j - kl - ku;
    if row >= kl && 0 <= i < n {
        m[i][j]
    } else {
        zero
    }
}

proof fn lemma_column_start(j: int, ldab: int, n: int)
    requires
        0 <= j < n,
        0 < ldab,
    ensures
        0 <= j * ldab,
        j * ldab + ldab == (j + 1) * ldab,
        (j + 1) * ldab <= n * ldab,
{
    assert(0 <= j * ldab) by (nonlinear_arith)
        requires
            0 <= j,
            0 < ldab,
    ;
    assert(j * ldab + ldab == (j + 1) * ldab) by (nonlinear_arith);
    assert((j + 1) * ldab <= n * ldab) by (nonlinear_arith)
        requires
            j < n,
            0 < ldab,
    ;
}

/// Packs the `n × n` matrix `m` into band storage with `kl` subdiagonals and
/// `ku` superdiagonals: column `j` occupies entries `j·ldab .. j·ldab + ldab`,
/// where `ldab = 2·kl + ku + 1`; entry `(i, j)` of the band goes to row
/// `kl + ku + i − j` of its column, and every other entry is `zero`.
pub fn band_storage<T: Copy>(m: &Matrix<T>, kl: usize, ku: usize, zero: T) -> (r: Vec<T>)
    requires
        m.is_square(m@.len()),
        band_rows(kl as int, ku as int) + m@.len() <= usize::MAX,
        band_rows(kl as int, ku as int) * m@.len() <= usize::MAX,
    ensures
        r@.len() == band_rows(kl as int, ku as int) * m@.len(),
        forall|j: int, row: int|
            0 <= j < m@.len() && 0 <= row < band_rows(kl as int, ku as int)
                ==> #[trigger] r@[j * band_rows(kl as int, ku as int) + row] == band_entry(
                m@,
                m@.len() as int,
                kl as int,
                ku as int,
                j,
                row,
                zero,
            ),
        forall|i: int, j: int|
            0 <= i < m@.len() && 0 <= j < m@.len() && j <= i + ku && i <= j + kl ==> r@[j * band_rows(
                kl as int,
                ku as int,
            ) + (kl + ku + i - j)] == #[trigger] m@[i][j],
{
    let n = m.rows.len();
    let ldab = 2 * kl + ku + 1;
    let mut ab: Vec<T> = Vec::new();
    let mut j: usize = 0;
    while j < n
        invariant
            m.is_square(n as nat),
            n == m@.len(),
            ldab == band_rows(kl as int, ku as int),
            ldab + n <= usize::MAX,
            ldab * n <= usize::MAX,
            j <= n,
            ab@.len() == j * ldab,
            forall|c: int, row: int|
                0 <= c < j && 0 <= row < ldab ==> #[trigger] ab@[c * ldab + row] == band_entry(
                    m@,
                    n as int,
                    kl as int,
                    ku as int,
                    c,
                    row,
                    zero,
                ),
        decreases n - j,
    {
        proof {
            lemma_column_start(j as int, ldab as int, n as int);
        }
        let ghost start = j * ldab;
        let mut row: usize = 0;
        while row < ldab
            invariant
                m.is_square(n as nat),
                n == m@.len(),
                ldab == band_rows(kl as int, ku as int),
                ldab + n <= usize::MAX,
                j < n,
                start == j * ldab,
                row <= ldab,
                ab@.len() == start + row,
                forall|c: int, r2: int|
                    0 <= c < j && 0 <= r2 < ldab ==> #[trigger] ab@[c * ldab + r2] == band_entry(
                        m@,
                        n as int,
                        kl as int,
                        ku as int,
                        c,
                        r2,
                        zero,
                    ),
                forall|r2: int| 0 <= r2 < row ==> #[trigger] ab@[start + r2] == band_entry(
                    m@,
                    n as int,
                    kl as int,
                    ku as int,
                    j as int,
                    r2,
                    zero,
                ),
            decreases ldab - row,
        {
            let mut value = zero;
            if row >= kl {
                let t = row - kl + j;
                if t >= ku {
                    let i = t - ku;
                    if i < n {
                        value = m.get(i, j);
                    }
                }
            }
            let ghost old = ab@;
            ab.push(value);
            proof {
                assert forall|c: int, r2: int| 0 <= c < j && 0 <= r2 < ldab implies #[trigger] ab@[c * ldab + r2]
                    == old[c * ldab + r2] by {
                    lemma_column_start(c, ldab as int, j as int);
                }
            }
            row += 1;
        }
        proof {
            assert forall|c: int, r2: int| 0 <= c < j + 1 && 0 <= r2 < ldab implies #[trigger] ab@[c * ldab + r2]
                == band_entry(m@, n as int, kl as int, ku as int, c, r2, zero) by {
                if c == j {
                    assert(ab@[start + r2] == band_entry(m@, n as int, kl as int, ku as int, j as int, r2, zero));
                }
            }
        }
        j += 1;
    }
    assert(n * ldab == ldab * n) by (nonlinear_arith);
    assert forall|i: int, j: int|
        0 <= i < n && 0 <= j < n && j <= i + ku && i <= j + kl implies ab@[j * ldab + (kl + ku + i - j)]
            == #[trigger] m@[i][j] by {
        assert(ab@[j * ldab + (kl + ku + i - j)] == band_entry(m@, n as int, kl as int, ku as int, j, kl + ku + i - j, zero));
    }
    ab
}

} // verus!
