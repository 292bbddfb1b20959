//! Matrix multiplication (forward inference).
//!
//! Two variants:
//!
//! * [`matmul`]: `C = A @ B`, with `A: [m, k]`, `B: [k, n]`, `C: [m, n]`.
//! * [`matmul_t_b`]: `C = A @ B^T`, with `A: [m, k]`, `B: [n, k]`, `C: [m, n]`.
//!   This matches PyTorch's `nn.Linear` weight layout (`[out, in]`), so it is
//!   the hot path for transformer inference.

use vstd::prelude::*;
use vstd::slice::slice_subrange;
use core::ops::{Add, Mul};
use crate::num::{
    can_add, can_multiply, cell, column_of, dot_gives, is_zero, lemma_cell_index, lemma_dot_step,
    lemma_row_bounds, plus, row_of, times,
};
use crate::tensor::{Tensor, lemma_product_2};

verus! {

/// `c` is a product of the `[m, k]` matrix `a` and the `[k, n]` matrix `b`.
pub open spec fn is_product<T: Add<Output = T> + Mul<Output = T>>(
    c: Seq<T>,
    a: Seq<T>,
    b: Seq<T>,
    m: int,
    k: int,
    n: int,
    zero: T,
) -> bool {
    &&& c.len() == m * n
    &&& forall|i: int, j: int|
        0 <= i < m && 0 <= j < n ==> dot_gives(
            zero,
            row_of(a, k, i),
            column_of(b, k, n, j),
            #[trigger] cell(c, n, i, j),
        )
}

/// `c` is a product of the `[m, k]` matrix `a` and the transpose of the
/// `[n, k]` matrix `b`.
pub open spec fn is_product_t<T: Add<Output = T> + Mul<Output = T>>(
    c: Seq<T>,
    a: Seq<T>,
    b: Seq<T>,
    m: int,
    k: int,
    n: int,
    zero: T,
) -> bool {
    &&& c.len() == m * n
    &&& forall|i: int, j: int|
        0 <= i < m && 0 <= j < n ==> dot_gives(
            zero,
            row_of(a, k, i),
            row_of(b, k, j),
            #[trigger] cell(c, n, i, j),
        )
}

/// The product of the `[m, k]` matrix `a` and the `[k, n]` matrix `b` may come
/// out as `c`.
pub open spec fn product_gives<T: Default + Add<Output = T> + Mul<Output = T>>(
    a: Seq<T>,
    b: Seq<T>,
    m: int,
    k: int,
    n: int,
    c: Seq<T>,
) -> bool {
    exists|zero: T| #[trigger] is_zero(zero) && is_product(c, a, b, m, k, n, zero)
}

/// The product of the `[m, k]` matrix `a` and the transpose of the `[n, k]`
/// matrix `b` may come out as `c`.
pub open spec fn product_t_gives<T: Default + Add<Output = T> + Mul<Output = T>>(
    a: Seq<T>,
    b: Seq<T>,
    m: int,
    k: int,
    n: int,
    c: Seq<T>,
) -> bool {
    exists|zero: T| #[trigger] is_zero(zero) && is_product_t(c, a, b, m, k, n, zero)
}

/// Appends a row to a row-major matrix: rows that were there stay.
pub(crate) proof fn lemma_rows_after_append<T>(before: Seq<T>, row: Seq<T>, i: int, n: int)
    requires
        0 <= i,
        row.len() == n,
        before.len() == i * n,
    ensures
        (before + row).len() == (i + 1) * n,
        forall|r: int, j: int|
            0 <= r < i && 0 <= j < n ==> #[trigger] cell(before + row, n, r, j) == cell(
                before,
                n,
                r,
                j,
            ),
        forall|j: int| 0 <= j < n ==> #[trigger] cell(before + row, n, i, j) == row[j],
{
    lemma_row_bounds(i, i + 1, n);
    assert forall|r: int, j: int| 0 <= r < i && 0 <= j < n implies #[trigger] cell(
        before + row,
        n,
        r,
        j,
    ) == cell(before, n, r, j) by {
        lemma_cell_index(r, j, i, n);
    }
}

/// Appends all elements of `row`.
pub(crate) fn append_row<T: Copy>(out: &mut Vec<T>, row: &[T])
    ensures
        final(out)@ == old(out)@ + row@,
{
    let n: usize = row.len();
    let mut i: usize = 0;
    assert(row@.take(0) =~= Seq::<T>::empty());
    while i < n
        invariant
            i <= n,
            n == row@.len(),
            out@ == old(out)@ + row@.take(i as int),
        decreases n - i,
    {
        out.push(row[i]);
        i = i + 1;
        assert(row@.take(i as int) =~= row@.take(i - 1).push(row@[i - 1]));
    }
    assert(row@.take(n as int) =~= row@);
}

/// One row of a product: the combination of the rows of `b` with the elements
/// of `a_row` as coefficients.
fn combine_rows<T: Copy + Add<Output = T> + Mul<Output = T>>(
    a_row: &[T],
    b: &[T],
    n: usize,
    zero: T,
) -> (res: Vec<T>)
    requires
        b@.len() == a_row@.len() * n,
        can_add::<T>(),
        can_multiply::<T>(),
    ensures
        res@.len() == n,
        forall|j: int|
            0 <= j < n ==> dot_gives(
                zero,
                a_row@,
                column_of(b@, a_row@.len() as int, n as int, j),
                #[trigger] res@[j],
            ),
{
    let k: usize = a_row.len();
    let _b_len: usize = b.len();
    let mut acc: Vec<T> = Vec::new();
    while acc.len() < n
        invariant
            acc@.len() <= n,
            forall|j: int| 0 <= j < acc@.len() ==> #[trigger] acc@[j] == zero,
        decreases n - acc@.len(),
    {
        acc.push(zero);
    }
    proof {
        assert forall|j: int| 0 <= j < n implies dot_gives(
            zero,
            a_row@.take(0),
            column_of(b@, k as int, n as int, j).take(0),
            #[trigger] acc@[j],
        ) by {}
    }
    // Going through `b` row by row is best for row-major data.
    let mut kk: usize = 0;
    while kk < k
        invariant
            kk <= k,
            k == a_row@.len(),
            b@.len() == k * n,
            k * n <= usize::MAX,
            acc@.len() == n,
            can_add::<T>(),
            can_multiply::<T>(),
            forall|j: int|
                0 <= j < n ==> dot_gives(
                    zero,
                    a_row@.take(kk as int),
                    column_of(b@, k as int, n as int, j).take(kk as int),
                    #[trigger] acc@[j],
                ),
        decreases k - kk,
    {
        proof {
            lemma_row_bounds(kk as int, k as int, n as int);
        }
        let a_kk: T = a_row[kk];
        let mut j: usize = 0;
        while j < n
            invariant
                j <= n,
                kk < k,
                k == a_row@.len(),
                a_kk == a_row@[kk as int],
                b@.len() == k * n,
                kk * n + n <= k * n <= usize::MAX,
                acc@.len() == n,
                can_add::<T>(),
                can_multiply::<T>(),
                forall|c: int|
                    0 <= c < j ==> dot_gives(
                        zero,
                        a_row@.take(kk + 1),
                        column_of(b@, k as int, n as int, c).take(kk + 1),
                        #[trigger] acc@[c],
                    ),
                forall|c: int|
                    j <= c < n ==> dot_gives(
                        zero,
                        a_row@.take(kk as int),
                        column_of(b@, k as int, n as int, c).take(kk as int),
                        #[trigger] acc@[c],
                    ),
            decreases n - j,
        {
            let old_sum: T = acc[j];
            let term = times(a_kk, b[kk * n + j]);
            let sum = plus(old_sum, term);
            proof {
                lemma_dot_step(
                    zero,
                    a_row@,
                    column_of(b@, k as int, n as int, j as int),
                    kk as int,
                    old_sum,
                    term,
                    sum,
                );
            }
            acc.set(j, sum);
            j = j + 1;
        }
        kk = kk + 1;
    }
    proof {
        assert(a_row@.take(k as int) =~= a_row@);
        assert forall|j: int| 0 <= j < n implies column_of(
            b@,
            k as int,
            n as int,
            j,
        ).take(k as int) == #[trigger] column_of(b@, k as int, n as int, j) by {
            assert(column_of(b@, k as int, n as int, j).take(k as int) =~= column_of(
                b@,
                k as int,
                n as int,
                j,
            ));
        }
    }
    acc
}

/// Computes `C = A @ B` for 2D tensors.
///
/// - `a` shape: `[m, k]`
/// - `b` shape: `[k, n]`
/// - returned tensor shape: `[m, n]`
pub fn matmul<T: Copy + Default + Add<Output = T> + Mul<Output = T>>(
    a: &Tensor<T>,
    b: &Tensor<T>,
) -> (res: Tensor<T>)
    requires
        a.wf(),
        b.wf(),
        a.dims().len() == 2,
        b.dims().len() == 2,
        a.dims()[1] == b.dims()[0],
        a.dims()[0] * b.dims()[1] <= usize::MAX,
        can_add::<T>(),
        can_multiply::<T>(),
    ensures
        res.wf(),
        res.dims() == seq![a.dims()[0], b.dims()[1]],
        product_gives(
            a.elems(),
            b.elems(),
            a.dims()[0] as int,
            a.dims()[1] as int,
            b.dims()[1] as int,
            res.elems(),
        ),
{
    proof {
        lemma_product_2(a.dims());
        lemma_product_2(b.dims());
    }
    let a_shape = *a.shape();
    let b_shape = *b.shape();
    let m: usize = a_shape.as_slice()[0];
    let k: usize = a_shape.as_slice()[1];
    let n: usize = b_shape.as_slice()[1];
    let a_data = a.data();
    let b_data = b.data();
    let _a_len: usize = a_data.len();
    let zero = T::default();
    let mut out: Vec<T> = Vec::new();
    let mut i: usize = 0;
    while i < m
        invariant
            i <= m,
            a_data@.len() == m * k,
            m * k <= usize::MAX,
            b_data@.len() == k * n,
            can_add::<T>(),
            can_multiply::<T>(),
            is_product(out@, a_data@, b_data@, i as int, k as int, n as int, zero),
        decreases m - i,
    {
        proof {
            lemma_row_bounds(i as int, m as int, k as int);
        }
        let a_row = slice_subrange(a_data, i * k, (i + 1) * k);
        let row = combine_rows(a_row, b_data, n, zero);
        proof {
            lemma_rows_after_append(out@, row@, i as int, n as int);
            assert(a_row@ == row_of(a_data@, k as int, i as int));
        }
        let ghost before = out@;
        append_row(&mut out, row.as_slice());
        proof {
            assert forall|r: int, j: int| 0 <= r < i + 1 && 0 <= j < n implies dot_gives(
                zero,
                row_of(a_data@, k as int, r),
                column_of(b_data@, k as int, n as int, j),
                #[trigger] cell(out@, n as int, r, j),
            ) by {
                if r < i {
                    assert(cell(before, n as int, r, j) == cell(out@, n as int, r, j));
                } else {
                    assert(cell(out@, n as int, r, j) == row@[j]);
                }
            }
        }
        i = i + 1;
    }
    proof {
        lemma_product_2(seq![m, n]);
        assert(is_zero(zero));
    }
    Tensor::from_vec(out, &[m, n])
}

/// Sum of the products of two rows.
pub(crate) fn dot<T: Copy + Add<Output = T> + Mul<Output = T>>(
    a: &[T],
    b: &[T],
    zero: T,
) -> (res: T)
    requires
        a@.len() == b@.len(),
        can_add::<T>(),
        can_multiply::<T>(),
    ensures
        dot_gives(zero, a@, b@, res),
{
    let n: usize = a.len();
    let mut sum = zero;
    let mut i: usize = 0;
    while i < n
        invariant
            i <= n,
            n == a@.len(),
            n == b@.len(),
            can_add::<T>(),
            can_multiply::<T>(),
            dot_gives(zero, a@.take(i as int), b@.take(i as int), sum),
        decreases n - i,
    {
        let term = times(a[i], b[i]);
        let next = plus(sum, term);
        proof {
            lemma_dot_step(zero, a@, b@, i as int, sum, term, next);
        }
        sum = next;
        i = i + 1;
    }
    assert(a@.take(n as int) =~= a@);
    assert(b@.take(n as int) =~= b@);
    sum
}

/// Computes `C = A @ B^T` (B treated as transposed without materializing the transpose).
///
/// - `a` shape: `[m, k]`
/// - `b` shape: `[n, k]`  (rows of `b` are columns of `B^T`)
/// - returned tensor shape: `[m, n]`
///
/// This is the operation behind a `Linear` layer when weights are stored in
/// PyTorch convention `[out_features, in_features]`.
pub fn matmul_t_b<T: Copy + Default + Add<Output = T> + Mul<Output = T>>(
    a: &Tensor<T>,
    b: &Tensor<T>,
) -> (res: Tensor<T>)
    requires
        a.wf(),
        b.wf(),
        a.dims().len() == 2,
        b.dims().len() == 2,
        a.dims()[1] == b.dims()[1],
        a.dims()[0] * b.dims()[0] <= usize::MAX,
        can_add::<T>(),
        can_multiply::<T>(),
    ensures
        res.wf(),
        res.dims() == seq![a.dims()[0], b.dims()[0]],
        product_t_gives(
            a.elems(),
            b.elems(),
            a.dims()[0] as int,
            a.dims()[1] as int,
            b.dims()[0] as int,
            res.elems(),
        ),
{
    proof {
        lemma_product_2(a.dims());
        lemma_product_2(b.dims());
    }
    let a_shape = *a.shape();
    let b_shape = *b.shape();
    let m: usize = a_shape.as_slice()[0];
    let k: usize = a_shape.as_slice()[1];
    let n: usize = b_shape.as_slice()[0];
    let a_data = a.data();
    let b_data = b.data();
    let _a_len: usize = a_data.len();
    let _b_len: usize = b_data.len();
    let zero = T::default();
    let mut out: Vec<T> = Vec::new();
    let mut i: usize = 0;
    while i < m
        invariant
            i <= m,
            a_data@.len() == m * k,
            m * k <= usize::MAX,
            b_data@.len() == n * k,
            n * k <= usize::MAX,
            can_add::<T>(),
            can_multiply::<T>(),
            is_product_t(out@, a_data@, b_data@, i as int, k as int, n as int, zero),
        decreases m - i,
    {
        proof {
            lemma_row_bounds(i as int, m as int, k as int);
        }
        let a_row = slice_subrange(a_data, i * k, (i + 1) * k);
        let ghost before = out@;
        let mut row: Vec<T> = Vec::new();
        let mut j: usize = 0;
        while j < n
            invariant
                j <= n,
                a_row@.len() == k,
                b_data@.len() == n * k,
                n * k <= usize::MAX,
                can_add::<T>(),
                can_multiply::<T>(),
                row@.len() == j,
                forall|c: int|
                    0 <= c < j ==> dot_gives(
                        zero,
                        a_row@,
                        row_of(b_data@, k as int, c),
                        #[trigger] row@[c],
                    ),
            decreases n - j,
        {
            proof {
                lemma_row_bounds(j as int, n as int, k as int);
            }
            let b_row = slice_subrange(b_data, j * k, (j + 1) * k);
            row.push(dot(a_row, b_row, zero));
            j = j + 1;
        }
        proof {
            lemma_rows_after_append(out@, row@, i as int, n as int);
        }
        append_row(&mut out, row.as_slice());
        proof {
            assert forall|r: int, c: int| 0 <= r < i + 1 && 0 <= c < n implies dot_gives(
                zero,
                row_of(a_data@, k as int, r),
                row_of(b_data@, k as int, c),
                #[trigger] cell(out@, n as int, r, c),
            ) by {
                if r < i {
                    assert(cell(before, n as int, r, c) == cell(out@, n as int, r, c));
                } else {
                    assert(cell(out@, n as int, r, c) == row@[c]);
                }
            }
        }
        i = i + 1;
    }
    proof {
        lemma_product_2(seq![m, n]);
        assert(is_zero(zero));
    }
    Tensor::from_vec(out, &[m, n])
}

} // verus!
