//! A dense two-dimensional container of single-precision values, held as
//! bit patterns. Operations return new matrices; only the single-cell
//! setter mutates in place.

use vstd::prelude::*;
use crate::scalar::{F_ZERO, fadd, fmul};
use crate::activation::{ScalarOp, apply_op, apply};
use crate::scalar::{add_bits, mul_bits};

verus! {

/// Row-major dense matrix. The invariant `wf` says that the stored shape
/// matches the data and that neither dimension is empty.
pub struct Matrix {
    rows: usize,
    cols: usize,
    data: Vec<Vec<u32>>,
}

impl View for Matrix {
    type V = Seq<Seq<u32>>;

    closed spec fn view(&self) -> Seq<Seq<u32>> {
        Seq::new(self.data@.len(), |i: int| self.data@[i]@)
    }
}

/// One row mapped entrywise by a scalar function.
pub open spec fn map_row(row: Seq<u32>, op: ScalarOp) -> Seq<u32> {
    row.map_values(|x: u32| apply_op(op, x))
}

/// A whole matrix mapped entrywise by a scalar function.
pub open spec fn map_seq(m: Seq<Seq<u32>>, op: ScalarOp) -> Seq<Seq<u32>> {
    m.map_values(|row: Seq<u32>| map_row(row, op))
}

/// The transpose of a matrix of `c` columns: rows and columns swap roles.
pub open spec fn transpose_seq(m: Seq<Seq<u32>>, c: int) -> Seq<Seq<u32>> {
    Seq::new(c as nat, |j: int| Seq::new(m.len(), |i: int| m[i][j]))
}

/// The product entry at row `i`, column `j`: the single-precision sum,
/// taken left to right from zero, of the first `k` termwise products.
pub open spec fn dot_sum(a: Seq<Seq<u32>>, b: Seq<Seq<u32>>, i: int, j: int, k: int) -> u32
    decreases k,
{
    if k <= 0 {
        F_ZERO
    } else {
        fadd(dot_sum(a, b, i, j, k - 1), fmul(a[i][k - 1], b[k - 1][j]))
    }
}

/// The column sum at column `j`: the single-precision sum, taken top to
/// bottom from zero, of the first `k` entries of that column.
pub open spec fn col_sum(m: Seq<Seq<u32>>, j: int, k: int) -> u32
    decreases k,
{
    if k <= 0 {
        F_ZERO
    } else {
        fadd(col_sum(m, j, k - 1), m[k - 1][j])
    }
}

impl Matrix {
    /// The stored row count.
    pub closed spec fn spec_rows(&self) -> usize {
        self.rows
    }

    /// The stored column count.
    pub closed spec fn spec_cols(&self) -> usize {
        self.cols
    }

    /// Every row has exactly `cols` entries, the stored shape matches the
    /// data, and neither dimension is empty.
    pub open spec fn wf(&self) -> bool {
        &&& self@.len() == self.spec_rows()
        &&& forall|i: int| 0 <= i < self@.len() ==> (#[trigger] self@[i]).len() == self.spec_cols()
        &&& 1 <= self.spec_rows()
        &&& 1 <= self.spec_cols()
    }

    /// Well-formed with exactly `r` rows and `c` columns.
    pub open spec fn is_shape(&self, r: int, c: int) -> bool {
        &&& self.wf()
        &&& self@.len() == r
        &&& self.spec_cols() == c
    }

    /// A zero-filled matrix.
    pub fn new(rows: usize, cols: usize) -> (r: Matrix)
        requires
            1 <= rows,
            1 <= cols,
        ensures
            r.is_shape(rows as int, cols as int),
            forall|i: int, j: int|
                0 <= i < rows && 0 <= j < cols ==> #[trigger] r@[i][j] == F_ZERO,
    {
        let mut data: Vec<Vec<u32>> = Vec::new();
        let mut i: usize = 0;
        while i < rows
            invariant
                i <= rows,
                data@.len() == i as int,
                forall|p: int| 0 <= p < i as int ==> (#[trigger] data@[p])@.len() == cols,
                forall|p: int, q: int|
                    0 <= p < i as int && 0 <= q < cols ==> #[trigger] data@[p]@[q] == F_ZERO,
            decreases rows - i,
        {
            let mut row: Vec<u32> = Vec::new();
            let mut j: usize = 0;
            while j < cols
                invariant
                    j <= cols,
                    row@.len() == j as int,
                    forall|q: int| 0 <= q < j as int ==> #[trigger] row@[q] == F_ZERO,
                decreases cols - j,
            {
                row.push(F_ZERO);
                j = j + 1;
            }
            data.push(row);
            i = i + 1;
        }
        Matrix { rows, cols, data }
    }

    /// Wrap consistent row data; every row must have the same, nonzero,
    /// number of entries.
    pub fn from_vec(data: Vec<Vec<u32>>) -> (r: Matrix)
        requires
            1 <= data@.len(),
            1 <= data@[0]@.len(),
            forall|i: int| 0 <= i < data@.len() ==> (#[trigger] data@[i])@.len() == data@[0]@.len(),
        ensures
            r.is_shape(data@.len() as int, data@[0]@.len() as int),
            forall|i: int, j: int|
                0 <= i < data@.len() && 0 <= j < data@[0]@.len() ==> #[trigger] r@[i][j]
                    == data@[i]@[j],
    {
        let rows = data.len();
        let cols = data[0].len();
        Matrix { rows, cols, data }
    }

    /// The row count.
    pub fn rows(&self) -> (r: usize)
        ensures
            r == self.spec_rows(),
    {
        self.rows
    }

    /// The column count.
    pub fn cols(&self) -> (r: usize)
        ensures
            r == self.spec_cols(),
    {
        self.cols
    }

    /// One cell.
    pub fn get(&self, row: usize, col: usize) -> (r: u32)
        requires
            self.wf(),
            row < self.spec_rows(),
            col < self.spec_cols(),
        ensures
            r == self@[row as int][col as int],
    {
        proof {
            assert(self@[row as int] == self.data@[row as int]@);
        }
        self.data[row][col]
    }

    /// Overwrite one cell in place, the only mutating operation.
    pub fn set(&mut self, row: usize, col: usize, value: u32)
        requires
            old(self).wf(),
            row < old(self).spec_rows(),
            col < old(self).spec_cols(),
        ensures
            final(self).is_shape(old(self)@.len() as int, old(self).spec_cols() as int),
            final(self)@ == old(self)@.update(
                row as int,
                old(self)@[row as int].update(col as int, value),
            ),
    {
        proof {
            assert(self@[row as int] == self.data@[row as int]@);
        }
        self.data[row][col] = value;
        proof {
            assert(self@ =~= old(self)@.update(
                row as int,
                old(self)@[row as int].update(col as int, value),
            ));
        }
    }

    /// Borrow one row.
    pub fn row(&self, index: usize) -> (r: &Vec<u32>)
        requires
            self.wf(),
            index < self.spec_rows(),
        ensures
            r@ == self@[index as int],
    {
        &self.data[index]
    }

    /// Borrow the whole row-major store.
    pub fn data(&self) -> (r: &Vec<Vec<u32>>)
        ensures
            r@.len() == self@.len(),
            forall|i: int| 0 <= i < self@.len() ==> (#[trigger] r@[i])@ == self@[i],
    {
        &self.data
    }

    /// Elementwise sum; the shapes must agree.
    pub fn add(&self, other: &Matrix) -> (r: Matrix)
        requires
            self.wf(),
            other.wf(),
            self@.len() == other@.len(),
            self.spec_cols() == other.spec_cols(),
        ensures
            r.is_shape(self@.len() as int, self.spec_cols() as int),
            forall|i: int, j: int|
                0 <= i < self@.len() && 0 <= j < self.spec_cols() ==> #[trigger] r@[i][j] == fadd(
                    self@[i][j],
                    other@[i][j],
                ),
    {
        let rows = self.rows;
        let cols = self.cols;
        let mut data: Vec<Vec<u32>> = Vec::new();
        let mut i: usize = 0;
        while i < rows
            invariant
                self.wf(),
                other.wf(),
                self@.len() == other@.len(),
                self.spec_cols() == other.spec_cols(),
                rows == self.spec_rows(),
                cols == self.spec_cols(),
                i <= rows,
                data@.len() == i as int,
                forall|p: int| 0 <= p < i as int ==> (#[trigger] data@[p])@.len() == cols,
                forall|p: int, q: int|
                    0 <= p < i as int && 0 <= q < cols ==> #[trigger] data@[p]@[q] == fadd(
                        self@[p][q],
                        other@[p][q],
                    ),
            decreases rows - i,
        {
            let mut row: Vec<u32> = Vec::new();
            let mut j: usize = 0;
            while j < cols
                invariant
                    self.wf(),
                    other.wf(),
                    self@.len() == other@.len(),
                    self.spec_cols() == other.spec_cols(),
                    rows == self.spec_rows(),
                    cols == self.spec_cols(),
                    i < rows,
                    j <= cols,
                    row@.len() == j as int,
                    forall|q: int|
                        0 <= q < j as int ==> #[trigger] row@[q] == fadd(
                            self@[i as int][q],
                            other@[i as int][q],
                        ),
                decreases cols - j,
            {
                row.push(add_bits(self.get(i, j), other.get(i, j)));
                j = j + 1;
            }
            data.push(row);
            i = i + 1;
        }
        Matrix { rows, cols, data }
    }

    /// Standard matrix product; the inner dimensions must agree. Each entry
    /// is the left-to-right single-precision sum of the termwise products.
    pub fn dot(&self, other: &Matrix) -> (r: Matrix)
        requires
            self.wf(),
            other.wf(),
            self.spec_cols() == other@.len(),
        ensures
            r.is_shape(self@.len() as int, other.spec_cols() as int),
            forall|i: int, j: int|
                0 <= i < self@.len() && 0 <= j < other.spec_cols() ==> #[trigger] r@[i][j]
                    == dot_sum(self@, other@, i, j, self.spec_cols() as int),
    {
        let rows = self.rows;
        let inner = self.cols;
        let cols = other.cols;
        let mut data: Vec<Vec<u32>> = Vec::new();
        let mut i: usize = 0;
        while i < rows
            invariant
                self.wf(),
                other.wf(),
                self.spec_cols() == other@.len(),
                rows == self.spec_rows(),
                inner == self.spec_cols(),
                cols == other.spec_cols(),
                i <= rows,
                data@.len() == i as int,
                forall|p: int| 0 <= p < i as int ==> (#[trigger] data@[p])@.len() == cols,
                forall|p: int, q: int|
                    0 <= p < i as int && 0 <= q < cols ==> #[trigger] data@[p]@[q] == dot_sum(
                        self@,
                        other@,
                        p,
                        q,
                        inner as int,
                    ),
            decreases rows - i,
        {
            let mut row: Vec<u32> = Vec::new();
            let mut j: usize = 0;
            while j < cols
                invariant
                    self.wf(),
                    other.wf(),
                    self.spec_cols() == other@.len(),
                    rows == self.spec_rows(),
                    inner == self.spec_cols(),
                    cols == other.spec_cols(),
                    i < rows,
                    j <= cols,
                    row@.len() == j as int,
                    forall|q: int|
                        0 <= q < j as int ==> #[trigger] row@[q] == dot_sum(
                            self@,
                            other@,
                            i as int,
                            q,
                            inner as int,
                        ),
                decreases cols - j,
            {
                let mut acc: u32 = F_ZERO;
                let mut k: usize = 0;
                while k < inner
                    invariant
                        self.wf(),
                        other.wf(),
                        self.spec_cols() == other@.len(),
                        rows == self.spec_rows(),
                        inner == self.spec_cols(),
                        cols == other.spec_cols(),
                        i < rows,
                        j < cols,
                        k <= inner,
                        acc == dot_sum(self@, other@, i as int, j as int, k as int),
                    decreases inner - k,
                {
                    acc = add_bits(acc, mul_bits(self.get(i, k), other.get(k, j)));
                    k = k + 1;
                }
                row.push(acc);
                j = j + 1;
            }
            data.push(row);
            i = i + 1;
        }
        Matrix { rows, cols, data }
    }

    /// Apply one scalar function to every entry; the shape is kept.
    pub fn map(&self, op: ScalarOp) -> (r: Matrix)
        requires
            self.wf(),
        ensures
            r.is_shape(self@.len() as int, self.spec_cols() as int),
            r@ == map_seq(self@, op),
    {
        let rows = self.rows;
        let cols = self.cols;
        let mut data: Vec<Vec<u32>> = Vec::new();
        let mut i: usize = 0;
        while i < rows
            invariant
                self.wf(),
                rows == self.spec_rows(),
                cols == self.spec_cols(),
                i <= rows,
                data@.len() == i as int,
                forall|p: int| 0 <= p < i as int ==> (#[trigger] data@[p])@ == map_row(self@[p], op),
            decreases rows - i,
        {
            let mut row: Vec<u32> = Vec::new();
            let mut j: usize = 0;
            while j < cols
                invariant
                    self.wf(),
                    rows == self.spec_rows(),
                    cols == self.spec_cols(),
                    i < rows,
                    j <= cols,
                    row@.len() == j as int,
                    forall|q: int|
                        0 <= q < j as int ==> #[trigger] row@[q] == apply_op(op, self@[i as int][q]),
                decreases cols - j,
            {
                row.push(apply(op, self.get(i, j)));
                j = j + 1;
            }
            proof {
                assert(row@ =~= map_row(self@[i as int], op));
            }
            data.push(row);
            i = i + 1;
        }
        let m = Matrix { rows, cols, data };
        proof {
            assert(m@ =~= map_seq(self@, op));
            assert forall|p: int| 0 <= p < m@.len() implies (#[trigger] m@[p]).len()
                == m.spec_cols() by {
                assert(m@[p] == map_row(self@[p], op));
            }
        }
        m
    }

    /// The one row-to-row function the engine broadcasts: add a fixed row
    /// to every row of the matrix.
    pub fn map_rows(&self, row: &Matrix) -> (r: Matrix)
        requires
            self.wf(),
            row.is_shape(1, self.spec_cols() as int),
        ensures
            r.is_shape(self@.len() as int, self.spec_cols() as int),
            forall|i: int, j: int|
                0 <= i < self@.len() && 0 <= j < self.spec_cols() ==> #[trigger] r@[i][j] == fadd(
                    self@[i][j],
                    row@[0][j],
                ),
    {
        let rows = self.rows;
        let cols = self.cols;
        let mut data: Vec<Vec<u32>> = Vec::new();
        let mut i: usize = 0;
        while i < rows
            invariant
                self.wf(),
                row.is_shape(1, self.spec_cols() as int),
                rows == self.spec_rows(),
                cols == self.spec_cols(),
                i <= rows,
                data@.len() == i as int,
                forall|p: int| 0 <= p < i as int ==> (#[trigger] data@[p])@.len() == cols,
                forall|p: int, q: int|
                    0 <= p < i as int && 0 <= q < cols ==> #[trigger] data@[p]@[q] == fadd(
                        self@[p][q],
                        row@[0][q],
                    ),
            decreases rows - i,
        {
            let mut out_row: Vec<u32> = Vec::new();
            let mut j: usize = 0;
            while j < cols
                invariant
                    self.wf(),
                    row.is_shape(1, self.spec_cols() as int),
                    rows == self.spec_rows(),
                    cols == self.spec_cols(),
                    i < rows,
                    j <= cols,
                    out_row@.len() == j as int,
                    forall|q: int|
                        0 <= q < j as int ==> #[trigger] out_row@[q] == fadd(
                            self@[i as int][q],
                            row@[0][q],
                        ),
                decreases cols - j,
            {
                out_row.push(add_bits(self.get(i, j), row.get(0, j)));
                j = j + 1;
            }
            data.push(out_row);
            i = i + 1;
        }
        Matrix { rows, cols, data }
    }

    /// Swap row and column roles.
    pub fn transpose(&self) -> (r: Matrix)
        requires
            self.wf(),
        ensures
            r.is_shape(self.spec_cols() as int, self@.len() as int),
            r@ == transpose_seq(self@, self.spec_cols() as int),
    {
        let rows = self.cols;
        let cols = self.rows;
        let mut data: Vec<Vec<u32>> = Vec::new();
        let mut i: usize = 0;
        while i < rows
            invariant
                self.wf(),
                rows == self.spec_cols(),
                cols == self.spec_rows(),
                i <= rows,
                data@.len() == i as int,
                forall|p: int| 0 <= p < i as int ==> (#[trigger] data@[p])@.len() == cols,
                forall|p: int, q: int|
                    0 <= p < i as int && 0 <= q < cols ==> #[trigger] data@[p]@[q] == self@[q][p],
            decreases rows - i,
        {
            let mut row: Vec<u32> = Vec::new();
            let mut j: usize = 0;
            while j < cols
                invariant
                    self.wf(),
                    rows == self.spec_cols(),
                    cols == self.spec_rows(),
                    i < rows,
                    j <= cols,
                    row@.len() == j as int,
                    forall|q: int| 0 <= q < j as int ==> #[trigger] row@[q] == self@[q][i as int],
                decreases cols - j,
            {
                row.push(self.get(j, i));
                j = j + 1;
            }
            data.push(row);
            i = i + 1;
        }
        let m = Matrix { rows, cols, data };
        proof {
            assert forall|p: int| 0 <= p < rows as int implies #[trigger] m@[p]
                =~= transpose_seq(self@, self.spec_cols() as int)[p] by {}
            assert(m@ =~= transpose_seq(self@, self.spec_cols() as int));
        }
        m
    }

    /// Column-wise sums, as a single row.
    pub fn sum_rows(&self) -> (r: Matrix)
        requires
            self.wf(),
        ensures
            r.is_shape(1, self.spec_cols() as int),
            forall|j: int|
                0 <= j < self.spec_cols() ==> #[trigger] r@[0][j] == col_sum(
                    self@,
                    j,
                    self@.len() as int,
                ),
    {
        let rows = self.rows;
        let cols = self.cols;
        let mut row: Vec<u32> = Vec::new();
        let mut j: usize = 0;
        while j < cols
            invariant
                self.wf(),
                rows == self.spec_rows(),
                cols == self.spec_cols(),
                j <= cols,
                row@.len() == j as int,
                forall|q: int|
                    0 <= q < j as int ==> #[trigger] row@[q] == col_sum(self@, q, rows as int),
            decreases cols - j,
        {
            let mut acc: u32 = F_ZERO;
            let mut k: usize = 0;
            while k < rows
                invariant
                    self.wf(),
                    rows == self.spec_rows(),
                    cols == self.spec_cols(),
                    j < cols,
                    k <= rows,
                    acc == col_sum(self@, j as int, k as int),
                decreases rows - k,
            {
                acc = add_bits(acc, self.get(k, j));
                k = k + 1;
            }
            row.push(acc);
            j = j + 1;
        }
        let mut data: Vec<Vec<u32>> = Vec::new();
        data.push(row);
        Matrix { rows: 1, cols, data }
    }
}

impl Clone for Matrix {
    /// An equal matrix: same shape, same cells.
    fn clone(&self) -> (r: Self)
        ensures
            r@ == self@,
            r.spec_rows() == self.spec_rows(),
            r.spec_cols() == self.spec_cols(),
    {
        let n = self.data.len();
        let mut data: Vec<Vec<u32>> = Vec::new();
        let mut i: usize = 0;
        while i < n
            invariant
                n == self.data@.len(),
                i <= n,
                data@.len() == i as int,
                forall|p: int| 0 <= p < i as int ==> (#[trigger] data@[p])@ == self.data@[p]@,
            decreases n - i,
        {
            let src = &self.data[i];
            let m = src.len();
            let mut row: Vec<u32> = Vec::new();
            let mut j: usize = 0;
            while j < m
                invariant
                    i < n,
                    n == self.data@.len(),
                    m == self.data@[i as int]@.len(),
                    j <= m,
                    row@.len() == j as int,
                    forall|q: int| 0 <= q < j as int ==> #[trigger] row@[q] == self.data@[i as int]@[q],
                decreases m - j,
            {
                row.push(self.data[i][j]);
                j = j + 1;
            }
            proof {
                assert(row@ =~= self.data@[i as int]@);
            }
            data.push(row);
            i = i + 1;
        }
        let r = Matrix { rows: self.rows, cols: self.cols, data };
        proof {
            assert(r@ =~= self@);
        }
        r
    }
}

/// Transposing twice gives back the original matrix.
pub proof fn lemma_transpose_involution(a: Matrix)
    requires
        a.wf(),
    ensures
        transpose_seq(transpose_seq(a@, a.spec_cols() as int), a@.len() as int) == a@,
{
    let t = transpose_seq(a@, a.spec_cols() as int);
    let tt = transpose_seq(t, a@.len() as int);
    assert forall|i: int| 0 <= i < a@.len() implies #[trigger] tt[i] =~= a@[i] by {}
    assert(tt =~= a@);
}

/// Mapping the identity over a matrix gives back the matrix.
pub proof fn lemma_map_identity(a: Matrix)
    requires
        a.wf(),
    ensures
        map_seq(a@, ScalarOp::Identity) == a@,
{
    assert forall|i: int| 0 <= i < a@.len() implies #[trigger] map_seq(a@, ScalarOp::Identity)[i]
        =~= a@[i] by {}
    assert(map_seq(a@, ScalarOp::Identity) =~= a@);
}

} // verus!
