//! Mean squared error between a prediction and a target of the same shape.

use vstd::prelude::*;
use crate::matrix::Matrix;
use crate::scalar::{F_ZERO, F_ONE, fadd, fsub, fmul, fdiv, add_bits, sub_bits, mul_bits, div_bits};

verus! {

/// The single of the whole number `n`: one added up `n` times, starting
/// from zero. Up to two to the twenty-fourth every such sum is exact, so
/// below that this is the single-precision value of `n` itself.
pub open spec fn ones_sum(n: int) -> u32
    decreases n,
{
    if n <= 0 {
        F_ZERO
    } else {
        fadd(ones_sum(n - 1), F_ONE)
    }
}

/// The squared differences over the first `k` cells of row `i`, summed left
/// to right from zero.
pub open spec fn sq_err_row(p: Seq<Seq<u32>>, t: Seq<Seq<u32>>, i: int, k: int) -> u32
    decreases k,
{
    if k <= 0 {
        F_ZERO
    } else {
        fadd(
            sq_err_row(p, t, i, k - 1),
            fmul(fsub(p[i][k - 1], t[i][k - 1]), fsub(p[i][k - 1], t[i][k - 1])),
        )
    }
}

/// The first `k` row sums added top to bottom from zero, each row summed
/// over `c` cells.
pub open spec fn sq_err_total(p: Seq<Seq<u32>>, t: Seq<Seq<u32>>, c: int, k: int) -> u32
    decreases k,
{
    if k <= 0 {
        F_ZERO
    } else {
        fadd(sq_err_total(p, t, c, k - 1), sq_err_row(p, t, k - 1, c))
    }
}

/// Mean squared error over an `r` by `c` shape: the squared differences
/// summed cell by cell, divided by the cell count.
pub open spec fn spec_mse(p: Seq<Seq<u32>>, t: Seq<Seq<u32>>, r: int, c: int) -> u32 {
    fdiv(sq_err_total(p, t, c, r), ones_sum(r * c))
}

/// The mean of the squared differences over all cells; the shapes must
/// agree. The divisor is the cell count built by repeated single-precision
/// increment, which is the count's own single up to two to the
/// twenty-fourth cells, far beyond any shape this engine meets.
pub fn mean_squared_error(predicted: &Matrix, target: &Matrix) -> (r: u32)
    requires
        predicted.wf(),
        target.wf(),
        predicted@.len() == target@.len(),
        predicted.spec_cols() == target.spec_cols(),
    ensures
        r == spec_mse(
            predicted@,
            target@,
            predicted@.len() as int,
            predicted.spec_cols() as int,
        ),
{
    let rows = predicted.rows();
    let cols = predicted.cols();
    let mut total: u32 = F_ZERO;
    let mut count: u32 = F_ZERO;
    let mut i: usize = 0;
    while i < rows
        invariant
            predicted.wf(),
            target.wf(),
            predicted@.len() == target@.len(),
            predicted.spec_cols() == target.spec_cols(),
            rows == predicted@.len(),
            cols == predicted.spec_cols(),
            i <= rows,
            total == sq_err_total(predicted@, target@, cols as int, i as int),
            count == ones_sum(i as int * cols as int),
        decreases rows - i,
    {
        let mut row_sum: u32 = F_ZERO;
        let mut j: usize = 0;
        while j < cols
            invariant
                predicted.wf(),
                target.wf(),
                predicted@.len() == target@.len(),
                predicted.spec_cols() == target.spec_cols(),
                rows == predicted@.len(),
                cols == predicted.spec_cols(),
                i < rows,
                j <= cols,
                row_sum == sq_err_row(predicted@, target@, i as int, j as int),
                count == ones_sum(i as int * cols as int + j as int),
            decreases cols - j,
        {
            let d = sub_bits(predicted.get(i, j), target.get(i, j));
            row_sum = add_bits(row_sum, mul_bits(d, d));
            count = add_bits(count, F_ONE);
            j = j + 1;
        }
        total = add_bits(total, row_sum);
        proof {
            assert(i as int * cols as int + cols as int == (i as int + 1) * cols as int)
                by (nonlinear_arith);
        }
        i = i + 1;
    }
    div_bits(total, count)
}

} // verus!
