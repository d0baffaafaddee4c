//! The table of a metric over every pair of points from two sets, filled in
//! parallel.

use rayon::iter::{IntoParallelIterator, ParallelIterator};
use vstd::prelude::*;

verus! {

/// A point of the plane. The coordinates are of a numeric type that this
/// library carries and never interprets.
#[derive(Debug, PartialEq)]
pub struct Point<T> {
    pub x: T,
    pub y: T,
}

/// A buffer whose length is not the product of the shape asked for.
#[derive(Debug, Clone, Copy, PartialEq, Eq)]
pub struct ShapeMismatch {
    pub rows: usize,
    pub cols: usize,
    pub len: usize,
}

/// A dense table in row-major order.
#[derive(Debug, PartialEq)]
pub struct Matrix<T> {
    rows: usize,
    cols: usize,
    cells: Vec<T>,
}

impl<T> Matrix<T> {
    #[verifier::type_invariant]
    spec fn shaped(&self) -> bool {
        self.cells@.len() == self.rows * self.cols
    }

    /// Number of rows.
    pub closed spec fn spec_nrows(&self) -> usize {
        self.rows
    }

    /// Number of columns.
    pub closed spec fn spec_ncols(&self) -> usize {
        self.cols
    }

    /// The cells, one row after the other.
    pub closed spec fn flat(&self) -> Seq<T> {
        self.cells@
    }

    /// The cell in row `r` and column `c`.
    pub open spec fn at(&self, r: int, c: int) -> T {
        self.flat()[r * self.spec_ncols() + c]
    }

    /// Shapes a flat buffer into `rows` rows of `cols` cells; refused where
    /// the buffer's length is not `rows * cols`.
    pub fn from_shape_vec(rows: usize, cols: usize, cells: Vec<T>) -> (made: Result<
        Self,
        ShapeMismatch,
    >)
        ensures
            match made {
                Ok(m) => {
                    &&& rows * cols == cells@.len()
                    &&& m.spec_nrows() == rows
                    &&& m.spec_ncols() == cols
                    &&& m.flat() == cells@
                },
                Err(e) => {
                    &&& rows * cols != cells@.len()
                    &&& e == (ShapeMismatch { rows, cols, len: cells@.len() as usize })
                },
            },
    {
        let len = cells.len();
        match rows.checked_mul(cols) {
            Some(total) if total == len => Ok(Matrix { rows, cols, cells }),
            _ => Err(ShapeMismatch { rows, cols, len }),
        }
    }

    /// Number of rows.
    #[verifier::when_used_as_spec(spec_nrows)]
    pub fn nrows(&self) -> (n: usize)
        ensures
            n == self.spec_nrows(),
            self.flat().len() == self.spec_nrows() * self.spec_ncols(),
    {
        proof {
            use_type_invariant(self);
        }
        self.rows
    }

    /// Number of columns.
    #[verifier::when_used_as_spec(spec_ncols)]
    pub fn ncols(&self) -> (n: usize)
        ensures
            n == self.spec_ncols(),
            self.flat().len() == self.spec_nrows() * self.spec_ncols(),
    {
        proof {
            use_type_invariant(self);
        }
        self.cols
    }

    /// The cell in row `r` and column `c`, where the table has one.
    pub fn get(&self, r: usize, c: usize) -> (cell: Option<&T>)
        ensures
            match cell {
                Some(v) => r < self.spec_nrows() && c < self.spec_ncols() && *v == self.at(
                    r as int,
                    c as int,
                ),
                None => r >= self.spec_nrows() || c >= self.spec_ncols(),
            },
    {
        proof {
            use_type_invariant(self);
        }
        if r < self.rows && c < self.cols {
            proof {
                lemma_row_major_in_table(r as int, c as int, self.rows as int, self.cols as int);
                assert(self.cells@.len() == self.cells.len());
            }
            Some(&self.cells[r * self.cols + c])
        } else {
            None
        }
    }

    /// Gives the cells up, one row after the other.
    pub fn into_raw_vec(self) -> (cells: Vec<T>)
        ensures
            cells@ == self.flat(),
            cells@.len() == self.spec_nrows() * self.spec_ncols(),
    {
        proof {
            use_type_invariant(&self);
        }
        self.cells
    }
}

/// Row of the first set that the flat cell `k` reads.
pub open spec fn pair_row(k: int, n_a: int) -> int {
    k / n_a
}

/// Row of the second set that the flat cell `k` reads.
pub open spec fn pair_col(k: int, n_a: int) -> int {
    k % n_a
}

/// The two sets have as many points as each other, or one of them has none.
pub open spec fn square_or_empty(n_a: int, n_b: int) -> bool {
    n_a == 0 || n_b == 0 || n_a == n_b
}

/// The row-major position of a cell lies inside the buffer.
pub proof fn lemma_row_major_in_table(r: int, c: int, rows: int, cols: int)
    requires
        0 <= r < rows,
        0 <= c < cols,
    ensures
        0 <= r * cols + c < rows * cols,
{
    assert(r * cols + c < rows * cols) by (nonlinear_arith)
        requires
            0 <= r < rows,
            0 <= c < cols,
    ;
    assert(0 <= r * cols) by (nonlinear_arith)
        requires
            0 <= r,
            0 <= cols,
    ;
}

/// A flat cell of an `n_a` by `n_b` table reads a row index below `n_b` from
/// the first set and one below `n_a` from the second.
pub proof fn lemma_pair_range(k: int, n_a: int, n_b: int)
    requires
        0 <= k < n_a * n_b,
        0 < n_a,
    ensures
        0 <= pair_row(k, n_a) < n_b,
        0 <= pair_col(k, n_a) < n_a,
{
    assert(0 <= k / n_a < n_b && 0 <= k % n_a < n_a) by (nonlinear_arith)
        requires
            0 <= k < n_a * n_b,
            0 < n_a,
    ;
}

/// In a square table the flat cell behind row `i` and column `j` reads row
/// `i` of the first set and row `j` of the second.
pub proof fn lemma_square_pair(i: int, j: int, n: int)
    requires
        0 <= i < n,
        0 <= j < n,
    ensures
        pair_row(i * n + j, n) == i,
        pair_col(i * n + j, n) == j,
{
    assert((i * n + j) / n == i && (i * n + j) % n == j) by (nonlinear_arith)
        requires
            0 <= i < n,
            0 <= j < n,
    ;
}

/// Every flat cell reads rows that both sets have exactly when the table is
/// square or has no cell at all.
pub proof fn lemma_pairs_readable(n_a: int, n_b: int)
    requires
        0 <= n_a,
        0 <= n_b,
    ensures
        square_or_empty(n_a, n_b) <==> (forall|k: int|
            0 <= k < n_a * n_b ==> #[trigger] pair_row(k, n_a) < n_a && pair_col(k, n_a) < n_b),
{
    if square_or_empty(n_a, n_b) {
        assert forall|k: int| 0 <= k < n_a * n_b implies #[trigger] pair_row(k, n_a) < n_a
            && pair_col(k, n_a) < n_b by {
            assert(n_a > 0 && n_b > 0) by (nonlinear_arith)
                requires
                    0 <= k < n_a * n_b,
                    0 <= n_a,
                    0 <= n_b,
            ;
            lemma_pair_range(k, n_a, n_b);
        }
    } else if n_a < n_b {
        // the cell behind (n_a, 0) reads row n_a of the first set
        let k = n_a * n_a;
        assert(0 <= k < n_a * n_b && k / n_a == n_a) by (nonlinear_arith)
            requires
                0 < n_a < n_b,
                k == n_a * n_a,
        ;
        assert(!(pair_row(k, n_a) < n_a));
    } else {
        // the cell behind (0, n_b) reads row n_b of the second set
        let k = n_b;
        assert(0 <= k < n_a * n_b && k / n_a == 0 && k % n_a == n_b) by (nonlinear_arith)
            requires
                0 < n_b < n_a,
                k == n_b,
        ;
        assert(pair_row(k, n_a) == 0 && !(pair_col(k, n_a) < n_b));
    }
}

/// `out` is a table of `metric` over `a` and `b`: as many rows as `a` has
/// points and as many columns as `b` has, and in the flat cell `k` a value
/// that `metric` gives for the two rows which that cell reads.
pub open spec fn is_table<T, F: Fn(&Point<T>, &Point<T>) -> T>(
    a: Seq<Point<T>>,
    b: Seq<Point<T>>,
    metric: F,
    out: Matrix<T>,
) -> bool {
    &&& out.spec_nrows() == a.len()
    &&& out.spec_ncols() == b.len()
    &&& out.flat().len() == a.len() * b.len()
    &&& forall|k: int|
        0 <= k < a.len() * b.len() ==> metric.ensures(
            (&a[pair_row(k, a.len() as int)], &b[pair_col(k, a.len() as int)]),
            #[trigger] out.flat()[k],
        )
}

/// `metric` gives one value at most for each pair of points.
pub open spec fn is_function<T, F: Fn(&Point<T>, &Point<T>) -> T>(metric: F) -> bool {
    forall|p: &Point<T>, q: &Point<T>, v: T, w: T|
        metric.ensures((p, q), v) && metric.ensures((p, q), w) ==> v == w
}

/// In a square table cell `(i, j)` holds the metric between point `i` of the
/// first set and point `j` of the second.
pub proof fn lemma_table_cells<T, F: Fn(&Point<T>, &Point<T>) -> T>(
    a: Seq<Point<T>>,
    b: Seq<Point<T>>,
    metric: F,
    out: Matrix<T>,
)
    requires
        is_table(a, b, metric, out),
        a.len() == b.len(),
    ensures
        forall|i: int, j: int|
            0 <= i < a.len() && 0 <= j < b.len() ==> metric.ensures(
                (&a[i], &b[j]),
                #[trigger] out.at(i, j),
            ),
{
    let n = a.len() as int;
    assert forall|i: int, j: int| 0 <= i < n && 0 <= j < n implies metric.ensures(
        (&a[i], &b[j]),
        #[trigger] out.at(i, j),
    ) by {
        lemma_square_pair(i, j, n);
        lemma_row_major_in_table(i, j, n, n);
        assert(out.at(i, j) == out.flat()[i * n + j]);
    }
}

/// The table of a set against itself has on its diagonal the metric of each
/// point to itself: all `zero` where that is what the metric gives there.
pub proof fn lemma_table_diagonal<T, F: Fn(&Point<T>, &Point<T>) -> T>(
    a: Seq<Point<T>>,
    metric: F,
    out: Matrix<T>,
    zero: T,
)
    requires
        is_table(a, a, metric, out),
        forall|i: int, v: T| 0 <= i < a.len() && metric.ensures((&a[i], &a[i]), v) ==> v == zero,
    ensures
        forall|i: int| 0 <= i < a.len() ==> #[trigger] out.at(i, i) == zero,
{
    lemma_table_cells(a, a, metric, out);
    assert forall|i: int| 0 <= i < a.len() implies #[trigger] out.at(i, i) == zero by {
        assert(metric.ensures((&a[i], &a[i]), out.at(i, i)));
    }
}

/// Two tables of one metric over the same sets hold the same cells, however
/// the work on each was spread over threads, where the metric is a function.
pub proof fn lemma_table_unique<T, F: Fn(&Point<T>, &Point<T>) -> T>(
    a: Seq<Point<T>>,
    b: Seq<Point<T>>,
    metric: F,
    first: Matrix<T>,
    second: Matrix<T>,
)
    requires
        is_table(a, b, metric, first),
        is_table(a, b, metric, second),
        is_function(metric),
    ensures
        first.spec_nrows() == second.spec_nrows(),
        first.spec_ncols() == second.spec_ncols(),
        first.flat() == second.flat(),
{
    assert forall|k: int| 0 <= k < first.flat().len() implies first.flat()[k] == second.flat()[k] by {
        let p = &a[pair_row(k, a.len() as int)];
        let q = &b[pair_col(k, a.len() as int)];
        assert(metric.ensures((p, q), first.flat()[k]));
        assert(metric.ensures((p, q), second.flat()[k]));
    }
    assert(first.flat() =~= second.flat());
}

/// Splits a flat cell index into the two row indices it reads.
pub fn cell_pair(k: usize, n_a: usize) -> (pair: (usize, usize))
    requires
        n_a > 0,
    ensures
        pair.0 == pair_row(k as int, n_a as int),
        pair.1 == pair_col(k as int, n_a as int),
{
    (k / n_a, k % n_a)
}

/// rayon's `collect` into a `Vec` of the `map` of a parallel iterator over
/// `0..total`. The range is an indexed iterator, so the items arrive in the
/// order of the indices whatever thread made them: one item for each index,
/// each a value that `cell` gave for that index.
#[verifier::external_body]
fn par_collect<T: Send, G: Fn(usize) -> T + Sync + Send>(total: usize, cell: G) -> (out: Vec<T>)
    requires
        forall|k: usize| k < total ==> cell.requires((k,)),
    ensures
        out@.len() == total,
        forall|k: int| 0 <= k < total ==> cell.ensures((k as usize,), #[trigger] out@[k]),
{
    (0..total).into_par_iter().map(cell).collect()
}

/// The table of `metric` over every pair of a point of `a` and a point of `b`.
///
/// The cells are computed independently of each other, on as many threads as
/// there are. The flat cell `k` holds the metric between row `k / n_a` of `a`
/// and row `k % n_a` of `b`, where `n_a` is the number of points of `a`; the
/// buffer is then read as `n_a` rows of `n_b` cells. Both rows exist for
/// every cell only where the table is square or empty, and there cell
/// `(i, j)` holds the metric between point `i` of `a` and point `j` of `b`.
pub fn distances<T: Send + Sync, F: Fn(&Point<T>, &Point<T>) -> T + Sync + Send>(
    a: &[Point<T>],
    b: &[Point<T>],
    metric: F,
) -> (out: Matrix<T>)
    requires
        a@.len() * b@.len() <= usize::MAX,
        square_or_empty(a@.len() as int, b@.len() as int),
        forall|i: int, j: int|
            0 <= i < a@.len() && 0 <= j < b@.len() ==> metric.requires((&a@[i], &b@[j])),
    ensures
        is_table(a@, b@, metric, out),
        forall|i: int, j: int|
            0 <= i < a@.len() && 0 <= j < b@.len() ==> metric.ensures(
                (&a@[i], &b@[j]),
                #[trigger] out.at(i, j),
            ),
{
    let n_a = a.len();
    let n_b = b.len();
    let total = n_a * n_b;
    proof {
        lemma_pairs_readable(n_a as int, n_b as int);
    }
    let cells = par_collect(
        total,
        |k: usize| -> (v: T)
            requires
                k < total
            ensures
                metric.ensures(
                    (&a@[pair_row(k as int, n_a as int)], &b@[pair_col(k as int, n_a as int)]),
                    v,
                )
            {
                proof {
                    assert(n_a > 0) by (nonlinear_arith)
                        requires
                            k < n_a * n_b,
                    ;
                    lemma_pair_range(k as int, n_a as int, n_b as int);
                    assert(pair_row(k as int, n_a as int) < n_a);
                }
                let (i, j) = cell_pair(k, n_a);
                metric(&a[i], &b[j])
            },
    );
    let out = Matrix { rows: n_a, cols: n_b, cells };
    proof {
        if n_a == n_b {
            lemma_table_cells(a@, b@, metric, out);
        }
    }
    out
}

} // verus!
