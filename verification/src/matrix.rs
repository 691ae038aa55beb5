//! Dense row-major matrices over any scalar type.
use vstd::prelude::*;

verus! {

/// A dense matrix stored row by row; well formed when every row has `ncols` entries.
pub struct Matrix<T> {
    pub ncols: usize,
    pub rows: Vec<Vec<T>>,
}

/// Every row of `rows` has `ncols` entries.
pub open spec fn rectangular<T>(rows: Seq<Seq<T>>, ncols: nat) -> bool {
    forall|i: int| 0 <= i < rows.len() ==> #[trigger] rows[i].len() == ncols
}

/// The rows of `rows`, each taken by its view.
pub open spec fn rows_view<T>(rows: Seq<Vec<T>>) -> Seq<Seq<T>> {
    rows.map_values(|r: Vec<T>| r@)
}

impl<T> View for Matrix<T> {
    type V = Seq<Seq<T>>;

    open spec fn view(&self) -> Seq<Seq<T>> {
        rows_view(self.rows@)
    }
}

impl<T> Matrix<T> {
    /// Every row has `ncols` entries.
    pub open spec fn wf(&self) -> bool {
        rectangular(self@, self.ncols as nat)
    }

    /// A well-formed `n × n` matrix.
    pub open spec fn is_square(&self, n: nat) -> bool {
        &&& self.wf()
        &&& self@.len() == n
        &&& self.ncols == n
    }

    /// Builds a matrix from its rows; `None` when a row's length is not `ncols`.
    pub fn from_rows(ncols: usize, rows: Vec<Vec<T>>) -> (r: Option<Matrix<T>>)
        ensures
            r is Some <==> rectangular(rows_view(rows@), ncols as nat),
            r matches Some(m) ==> m.wf() && m@ == rows_view(rows@) && m.ncols == ncols,
    {
        let ghost rv = rows_view(rows@);
        let mut i: usize = 0;
        while i < rows.len()
            invariant
                i <= rows.len(),
                rv == rows_view(rows@),
                forall|j: int| 0 <= j < i ==> #[trigger] rv[j].len() == ncols,
            decreases rows.len() - i,
        {
            if rows[i].len() != ncols {
                assert(rv[i as int].len() != ncols);
                return None;
            }
            i += 1;
        }
        Some(Matrix { ncols, rows })
    }

    /// The `n × n` matrix whose column `k` is `cols[k]`.
    pub fn from_columns(n: usize, cols: &Vec<Vec<T>>) -> (r: Matrix<T>)
        where T: Copy,
        requires
            cols@.len() == n,
            forall|c: int| 0 <= c < n ==> (#[trigger] cols@[c])@.len() == n,
        ensures
            r.is_square(n as nat),
            forall|i: int, k: int| 0 <= i < n && 0 <= k < n ==> #[trigger] r@[i][k] == cols@[k]@[i],
    {
        let mut rows: Vec<Vec<T>> = Vec::new();
        let mut g: usize = 0;
        while g < n
            invariant
                cols@.len() == n,
                forall|c: int| 0 <= c < n ==> (#[trigger] cols@[c])@.len() == n,
                g <= n,
                rows@.len() == g,
                forall|j: int| 0 <= j < g ==> (#[trigger] rows@[j])@.len() == n,
                forall|j: int, c: int| 0 <= j < g && 0 <= c < n ==> #[trigger] rows@[j]@[c] == cols@[c]@[j],
            decreases n - g,
        {
            let mut row: Vec<T> = Vec::new();
            let mut c: usize = 0;
            while c < n
                invariant
                    cols@.len() == n,
                    forall|c2: int| 0 <= c2 < n ==> (#[trigger] cols@[c2])@.len() == n,
                    g < n,
                    c <= n,
                    row@.len() == c,
                    forall|c2: int| 0 <= c2 < c ==> #[trigger] row@[c2] == cols@[c2]@[g as int],
                decreases n - c,
            {
                row.push(cols[c][g]);
                c += 1;
            }
            rows.push(row);
            g += 1;
        }
        let r = Matrix { ncols: n, rows };
        assert forall|j: int| 0 <= j < r@.len() implies #[trigger] r@[j] == rows@[j]@ by {}
        r
    }

    /// The number of rows.
    pub fn nrows(&self) -> (r: usize)
        ensures
            r == self@.len(),
    {
        self.rows.len()
    }

    /// The entry in row `i`, column `j`.
    pub fn get(&self, i: usize, j: usize) -> (r: T)
        where T: Copy,
        requires
            self.wf(),
            i < self@.len(),
            j < self.ncols,
        ensures
            r == self@[i as int][j as int],
    {
        assert(self@[i as int] == self.rows@[i as int]@);
        self.rows[i][j]
    }
}

} // verus!
