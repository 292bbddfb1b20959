//! Root mean square normalization along the last dimension.
//!
//! Unlike layer normalization it skips mean subtraction and has no offset.

use vstd::prelude::*;
use core::ops::{Add, Div, Mul};
use crate::num::{
    adds_to, can_add, can_divide, can_multiply, divides_to, dot_gives, is_zero, lemma_dot_step,
    multiplies_to, over, plus, row_of, times,
};
use crate::ops::rows::{map_rows, row_becomes, row_count};
use crate::tensor::{Tensor, lemma_product_1};

verus! {

/// `norm` may turn the row `x` into the row `y`.
pub open spec fn row_scales<T, N: Fn(&[T], &[T], T) -> Vec<T>>(
    norm: N,
    x: Seq<T>,
    weight: Seq<T>,
    eps: T,
    y: Seq<T>,
) -> bool {
    exists|row: &[T], w: &[T], out: Vec<T>|
        row@ == x && w@ == weight && out@ == y && #[trigger] call_ensures(
            norm,
            (row, w, eps),
            out,
        )
}

/// A row normalization: it can be called with a scale of the length of the row, and
/// gives a row of that length.
pub open spec fn is_row_rms_norm<T, N: Fn(&[T], &[T], T) -> Vec<T>>(norm: N) -> bool {
    &&& forall|row: &[T], w: &[T], eps: T|
        w@.len() == row@.len() ==> #[trigger] call_requires(norm, (row, w, eps))
    &&& forall|row: &[T], w: &[T], eps: T, out: Vec<T>|
        #[trigger] call_ensures(norm, (row, w, eps), out) ==> out@.len() == row@.len()
}

/// Each row of `out` is what `norm` may make of the row of `x`.
pub open spec fn is_rms_norm<T, N: Fn(&[T], &[T], T) -> Vec<T>>(
    out: Tensor<T>,
    x: Tensor<T>,
    weight: Tensor<T>,
    eps: T,
    norm: N,
) -> bool {
    &&& out.wf()
    &&& out.dims() == x.dims()
    &&& forall|r: int|
        0 <= r < row_count(x.dims()) ==> row_scales(
            norm,
            row_of(x.elems(), x.dims().last() as int, r),
            weight.elems(),
            eps,
            #[trigger] row_of(out.elems(), x.dims().last() as int, r),
        )
}

/// `v * rms_inv * weight` may come out as `r`.
pub open spec fn scales_to<T: Mul<Output = T>>(v: T, rms_inv: T, weight: T, r: T) -> bool {
    exists|unit: T| #[trigger] multiplies_to(v, rms_inv, unit) && multiplies_to(unit, weight, r)
}

/// What the normalization of a row computes on the way.
pub struct RmsParts<T> {
    /// Where the sum of squares starts.
    pub zero: T,
    /// The sum of squares.
    pub sum_sq: T,
    /// The number of elements.
    pub count: T,
    /// The mean square.
    pub mean_sq: T,
    /// The mean square and the stability epsilon.
    pub shifted: T,
    /// One over the root mean square.
    pub rms_inv: T,
}

/// `y` is the normalized row `x`, by way of `parts`.
pub open spec fn rms_norm_by<
    T: Default + Add<Output = T> + Mul<Output = T> + Div<Output = T>,
    C: Fn(usize) -> T,
    Q: Fn(T) -> T,
>(
    x: Seq<T>,
    weight: Seq<T>,
    eps: T,
    number: C,
    inv_sqrt: Q,
    parts: RmsParts<T>,
    y: Seq<T>,
) -> bool {
    &&& is_zero(parts.zero)
    &&& dot_gives(parts.zero, x, x, parts.sum_sq)
    &&& call_ensures(number, (x.len() as usize,), parts.count)
    &&& divides_to(parts.sum_sq, parts.count, parts.mean_sq)
    &&& adds_to(parts.mean_sq, eps, parts.shifted)
    &&& call_ensures(inv_sqrt, (parts.shifted,), parts.rms_inv)
    &&& y.len() == x.len()
    &&& forall|i: int|
        0 <= i < x.len() ==> scales_to(x[i], parts.rms_inv, weight[i], #[trigger] y[i])
}

/// The normalized row `x` may come out as `y`.
pub open spec fn rms_norm_gives<
    T: Default + Add<Output = T> + Mul<Output = T> + Div<Output = T>,
    C: Fn(usize) -> T,
    Q: Fn(T) -> T,
>(x: Seq<T>, weight: Seq<T>, eps: T, number: C, inv_sqrt: Q, y: Seq<T>) -> bool {
    exists|parts: RmsParts<T>|
        #[trigger] rms_norm_by(x, weight, eps, number, inv_sqrt, parts, y)
}

/// Root mean square normalization of one row. `number` is a count as an element,
/// `inv_sqrt` one over the square root.
pub fn rms_norm_row<
    T: Copy + Default + Add<Output = T> + Mul<Output = T> + Div<Output = T>,
    C: Fn(usize) -> T,
    Q: Fn(T) -> T,
>(row: &[T], weight: &[T], eps: T, number: &C, inv_sqrt: &Q) -> (res: Vec<T>)
    requires
        weight@.len() == row@.len(),
        can_add::<T>(),
        can_multiply::<T>(),
        can_divide::<T>(),
        forall|n: usize| #[trigger] call_requires(*number, (n,)),
        forall|v: T| #[trigger] call_requires(*inv_sqrt, (v,)),
    ensures
        rms_norm_gives(row@, weight@, eps, *number, *inv_sqrt, res@),
{
    let n: usize = row.len();
    let zero = T::default();
    let mut sum_sq: T = zero;
    let mut i: usize = 0;
    assert(dot_gives(zero, row@.take(0), row@.take(0), sum_sq));
    while i < n
        invariant
            i <= n,
            n == row@.len(),
            can_add::<T>(),
            can_multiply::<T>(),
            dot_gives(zero, row@.take(i as int), row@.take(i as int), sum_sq),
        decreases n - i,
    {
        let ghost before = sum_sq;
        let square = times(row[i], row[i]);
        sum_sq = plus(sum_sq, square);
        proof {
            lemma_dot_step(zero, row@, row@, i as int, before, square, sum_sq);
        }
        i = i + 1;
    }
    assert(row@.take(n as int) =~= row@);
    let count = number(n);
    let mean_sq = over(sum_sq, count);
    let shifted = plus(mean_sq, eps);
    let rms_inv = inv_sqrt(shifted);
    let mut out: Vec<T> = Vec::new();
    i = 0;
    while i < n
        invariant
            i <= n,
            n == row@.len(),
            n == weight@.len(),
            can_multiply::<T>(),
            out@.len() == i,
            forall|k: int|
                0 <= k < i ==> scales_to(row@[k], rms_inv, weight@[k], #[trigger] out@[k]),
        decreases n - i,
    {
        let unit = times(row[i], rms_inv);
        let r = times(unit, weight[i]);
        assert(scales_to(row@[i as int], rms_inv, weight@[i as int], r));
        out.push(r);
        i = i + 1;
    }
    proof {
        let parts = RmsParts { zero, sum_sq, count, mean_sq, shifted, rms_inv };
        assert(rms_norm_by(row@, weight@, eps, *number, *inv_sqrt, parts, out@));
    }
    out
}

/// Applies a root mean square normalization of one row over the last dimension
/// of `x`.
///
/// - `x`: any shape `[.., n]`; normalization is over the last dimension
/// - `weight`: scale, shape `[n]`
/// - `eps`: stability epsilon
/// - `norm`: normalizes one row
///
/// Returns a tensor of the same shape as `x`.
pub fn rms_norm_rows<T: Copy, N: Fn(&[T], &[T], T) -> Vec<T>>(
    x: &Tensor<T>,
    weight: &Tensor<T>,
    eps: T,
    norm: &N,
) -> (res: Tensor<T>)
    requires
        x.wf(),
        weight.wf(),
        x.dims().len() > 0,
        x.dims().last() > 0,
        weight.dims() == seq![x.dims().last()],
        is_row_rms_norm(*norm),
    ensures
        is_rms_norm(res, *x, *weight, eps, *norm),
{
    proof {
        lemma_product_1(weight.dims());
    }
    let w = weight.data();
    let f = |row: &[T]| -> (out: Vec<T>)
        requires
            row@.len() == w@.len(),
        ensures
            call_ensures(*norm, (row, w, eps), out),
        { norm(row, w, eps) };
    let res = map_rows(x, &f);
    proof {
        let n = x.dims().last() as int;
        assert forall|r: int| 0 <= r < row_count(x.dims()) implies row_scales(
            *norm,
            row_of(x.elems(), n, r),
            weight.elems(),
            eps,
            #[trigger] row_of(res.elems(), n, r),
        ) by {
            assert(row_becomes(f, row_of(x.elems(), n, r), row_of(res.elems(), n, r)));
        }
    }
    res
}

/// Applies RMSNorm over the last dimension of `x`.
///
/// - `x`: any shape `[.., n]`; normalization is over the last dimension
/// - `weight`: scale, shape `[n]`
/// - `eps`: stability epsilon
/// - `number`: a count as an element
/// - `inv_sqrt`: one over the square root
///
/// Returns a tensor of the same shape as `x`.
pub fn rms_norm<
    T: Copy + Default + Add<Output = T> + Mul<Output = T> + Div<Output = T>,
    C: Fn(usize) -> T,
    Q: Fn(T) -> T,
>(x: &Tensor<T>, weight: &Tensor<T>, eps: T, number: &C, inv_sqrt: &Q) -> (res: Tensor<T>)
    requires
        x.wf(),
        weight.wf(),
        x.dims().len() > 0,
        x.dims().last() > 0,
        weight.dims() == seq![x.dims().last()],
        can_add::<T>(),
        can_multiply::<T>(),
        can_divide::<T>(),
        forall|n: usize| #[trigger] call_requires(*number, (n,)),
        forall|v: T| #[trigger] call_requires(*inv_sqrt, (v,)),
    ensures
        res.wf(),
        res.dims() == x.dims(),
        forall|r: int|
            0 <= r < row_count(x.dims()) ==> rms_norm_gives(
                row_of(x.elems(), x.dims().last() as int, r),
                weight.elems(),
                eps,
                *number,
                *inv_sqrt,
                #[trigger] row_of(res.elems(), x.dims().last() as int, r),
            ),
{
    let norm = |row: &[T], w: &[T], e: T| -> (out: Vec<T>)
        requires
            w@.len() == row@.len(),
        ensures
            rms_norm_gives(row@, w@, e, *number, *inv_sqrt, out@),
        { rms_norm_row(row, w, e, number, inv_sqrt) };
    let res = rms_norm_rows(x, weight, eps, &norm);
    proof {
        let n = x.dims().last() as int;
        assert forall|r: int| 0 <= r < row_count(x.dims()) implies rms_norm_gives(
            row_of(x.elems(), n, r),
            weight.elems(),
            eps,
            *number,
            *inv_sqrt,
            #[trigger] row_of(res.elems(), n, r),
        ) by {
            assert(row_scales(
                norm,
                row_of(x.elems(), n, r),
                weight.elems(),
                eps,
                row_of(res.elems(), n, r),
            ));
        }
    }
    res
}

} // verus!
