//! Operations along the last dimension.

use vstd::prelude::*;
use vstd::slice::slice_subrange;
use crate::num::{lemma_row_bounds, row_of};
use crate::ops::matmul::append_row;
use crate::tensor::{Tensor, product};

verus! {

/// `f` may turn the row `x` into the row `y`.
pub open spec fn row_becomes<T, F: Fn(&[T]) -> Vec<T>>(f: F, x: Seq<T>, y: Seq<T>) -> bool {
    exists|slice: &[T], out: Vec<T>|
        slice@ == x && out@ == y && #[trigger] call_ensures(f, (slice,), out)
}

/// Number of rows of a tensor of the given shape.
pub open spec fn row_count(dims: Seq<usize>) -> nat {
    product(dims.drop_last())
}

/// Applies `f` to every row along the last dimension.
pub fn map_rows<T: Copy, F: Fn(&[T]) -> Vec<T>>(x: &Tensor<T>, f: &F) -> (res: Tensor<T>)
    requires
        x.wf(),
        x.dims().len() > 0,
        x.dims().last() > 0,
        forall|row: &[T]|
            row@.len() == x.dims().last() ==> #[trigger] call_requires(*f, (row,)),
        forall|row: &[T], out: Vec<T>|
            row@.len() == x.dims().last() && #[trigger] call_ensures(*f, (row,), out)
                ==> out@.len() == row@.len(),
    ensures
        res.wf(),
        res.dims() == x.dims(),
        forall|r: int|
            0 <= r < row_count(x.dims()) ==> row_becomes(
                *f,
                row_of(x.elems(), x.dims().last() as int, r),
                #[trigger] row_of(res.elems(), x.dims().last() as int, r),
            ),
{
    let shape = *x.shape();
    let dims = shape.as_slice();
    let n: usize = dims[dims.len() - 1];
    let data = x.data();
    let len: usize = data.len();
    let ghost rows = row_count(x.dims()) as int;
    assert(len == rows * n);
    let mut out: Vec<T> = Vec::new();
    let ghost mut r: int = 0;
    let mut start: usize = 0;
    assert(rows >= 0);
    while start < len
        invariant
            0 <= r <= rows,
            start == r * n,
            len == rows * n,
            len == data@.len(),
            n > 0,
            out@.len() == start,
            forall|row: &[T]| row@.len() == n ==> #[trigger] call_requires(*f, (row,)),
            forall|row: &[T], out: Vec<T>|
                row@.len() == n && #[trigger] call_ensures(*f, (row,), out) ==> out@.len()
                    == row@.len(),
            forall|k: int|
                0 <= k < r ==> row_becomes(
                    *f,
                    row_of(data@, n as int, k),
                    #[trigger] row_of(out@, n as int, k),
                ),
        decreases len - start,
    {
        proof {
            assert(r < rows) by (nonlinear_arith)
                requires
                    r * n < rows * n,
                    n > 0,
            ;
            lemma_row_bounds(r, rows, n as int);
        }
        let row = slice_subrange(data, start, start + n);
        let new_row = f(row);
        assert(call_ensures(*f, (row,), new_row));
        let ghost before = out@;
        append_row(&mut out, new_row.as_slice());
        proof {
            assert forall|k: int| 0 <= k < r + 1 implies row_becomes(
                *f,
                row_of(data@, n as int, k),
                #[trigger] row_of(out@, n as int, k),
            ) by {
                if k < r {
                    lemma_row_bounds(k, r, n as int);
                    assert(row_of(out@, n as int, k) =~= row_of(before, n as int, k));
                } else {
                    assert(row_of(out@, n as int, k) =~= new_row@);
                    assert(row@ == row_of(data@, n as int, k));
                }
            }
            r = r + 1;
        }
        start = start + n;
    }
    proof {
        assert(r == rows) by (nonlinear_arith)
            requires
                r * n >= rows * n,
                r <= rows,
                n > 0,
        ;
    }
    Tensor::from_vec(out, dims)
}

} // verus!
