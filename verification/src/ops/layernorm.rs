//! Layer normalization along the last dimension.
//!
//! Mean and variance are computed in one pass by Welford's algorithm, which is
//! more stable than the sum of squares less the squared mean.

use vstd::prelude::*;
use core::ops::{Add, Div, Mul, Sub};
use crate::num::{
    adds_to, can_add, can_divide, can_multiply, can_subtract, divides_to, is_zero, minus,
    multiplies_to, over, plus, row_of, subtracts_to, times,
};
use crate::ops::rows::{map_rows, row_becomes, row_count};
use crate::tensor::{Tensor, lemma_product_1};

verus! {

/// `norm` may turn the row `x` into the row `y`.
pub open spec fn row_normalizes<T, N: Fn(&[T], &[T], &[T], T) -> Vec<T>>(
    norm: N,
    x: Seq<T>,
    gamma: Seq<T>,
    beta: Seq<T>,
    eps: T,
    y: Seq<T>,
) -> bool {
    exists|row: &[T], g: &[T], b: &[T], out: Vec<T>|
        row@ == x && g@ == gamma && b@ == beta && out@ == y && #[trigger] call_ensures(
            norm,
            (row, g, b, eps),
            out,
        )
}

/// A row normalization: it can be called with scale and offset of the length of
/// the row, and gives a row of that length.
pub open spec fn is_row_norm<T, N: Fn(&[T], &[T], &[T], T) -> Vec<T>>(norm: N) -> bool {
    &&& forall|row: &[T], g: &[T], b: &[T], eps: T|
        g@.len() == row@.len() && b@.len() == row@.len() ==> #[trigger] call_requires(
            norm,
            (row, g, b, eps),
        )
    &&& forall|row: &[T], g: &[T], b: &[T], eps: T, out: Vec<T>|
        #[trigger] call_ensures(norm, (row, g, b, eps), out) ==> out@.len() == row@.len()
}

/// Each row of `out` is what `norm` may make of the row of `x`.
pub open spec fn is_layer_norm<T, N: Fn(&[T], &[T], &[T], T) -> Vec<T>>(
    out: Tensor<T>,
    x: Tensor<T>,
    gamma: Tensor<T>,
    beta: Tensor<T>,
    eps: T,
    norm: N,
) -> bool {
    &&& out.wf()
    &&& out.dims() == x.dims()
    &&& forall|r: int|
        0 <= r < row_count(x.dims()) ==> row_normalizes(
            norm,
            row_of(x.elems(), x.dims().last() as int, r),
            gamma.elems(),
            beta.elems(),
            eps,
            #[trigger] row_of(out.elems(), x.dims().last() as int, r),
        )
}

/// What the one pass over a row computes at one element.
pub struct WelfordParts<T> {
    /// The element less the mean before it.
    pub delta: T,
    /// How many elements there are with it.
    pub count: T,
    /// What the mean changes by.
    pub change: T,
    /// The element less the mean with it.
    pub delta2: T,
    /// What the sum of squares changes by.
    pub square: T,
}

/// One element `v`, number `n` of the row, takes the running mean and sum of
/// squared deviations from `mean0` and `m20` to `mean` and `m2`, by way of
/// `parts`.
pub open spec fn welford_by<
    T: Add<Output = T> + Sub<Output = T> + Mul<Output = T> + Div<Output = T>,
    C: Fn(usize) -> T,
>(
    number: C,
    n: usize,
    v: T,
    mean0: T,
    m20: T,
    parts: WelfordParts<T>,
    mean: T,
    m2: T,
) -> bool {
    &&& subtracts_to(v, mean0, parts.delta)
    &&& call_ensures(number, (n,), parts.count)
    &&& divides_to(parts.delta, parts.count, parts.change)
    &&& adds_to(mean0, parts.change, mean)
    &&& subtracts_to(v, mean, parts.delta2)
    &&& multiplies_to(parts.delta, parts.delta2, parts.square)
    &&& adds_to(m20, parts.square, m2)
}

/// Mean and sum of squared deviations of `x` may come out as `mean` and `m2`.
pub open spec fn welford_gives<
    T: Add<Output = T> + Sub<Output = T> + Mul<Output = T> + Div<Output = T>,
    C: Fn(usize) -> T,
>(zero: T, x: Seq<T>, number: C, mean: T, m2: T) -> bool
    decreases x.len(),
{
    if x.len() == 0 {
        mean == zero && m2 == zero
    } else {
        exists|mean0: T, m20: T, parts: WelfordParts<T>|
            #![trigger welford_by(number, x.len() as usize, x.last(), mean0, m20, parts, mean, m2)]
            welford_gives(zero, x.drop_last(), number, mean0, m20) && welford_by(
                number,
                x.len() as usize,
                x.last(),
                mean0,
                m20,
                parts,
                mean,
                m2,
            )
    }
}

/// `(v - mean) * inv_std * gamma + beta` may come out as `r`.
pub open spec fn normalizes_to<T: Add<Output = T> + Sub<Output = T> + Mul<Output = T>>(
    v: T,
    mean: T,
    inv_std: T,
    gamma: T,
    beta: T,
    r: T,
) -> bool {
    exists|centered: T, unit: T, scaled: T|
        #![trigger subtracts_to(v, mean, centered), multiplies_to(centered, inv_std, unit),
            multiplies_to(unit, gamma, scaled)]
        subtracts_to(v, mean, centered) && multiplies_to(centered, inv_std, unit) && multiplies_to(
            unit,
            gamma,
            scaled,
        ) && adds_to(scaled, beta, r)
}

/// What the normalization of a row computes on the way.
pub struct NormParts<T> {
    /// Where mean and sum of squared deviations start.
    pub zero: T,
    /// The mean.
    pub mean: T,
    /// The sum of squared deviations.
    pub m2: T,
    /// The number of elements.
    pub count: T,
    /// The variance.
    pub var: T,
    /// The variance and the stability constant.
    pub shifted: T,
    /// One over the standard deviation.
    pub inv_std: T,
}

/// `y` is the normalized row `x`, by way of `parts`.
pub open spec fn layer_norm_by<
    T: Default + Add<Output = T> + Sub<Output = T> + Mul<Output = T> + Div<Output = T>,
    C: Fn(usize) -> T,
    Q: Fn(T) -> T,
>(
    x: Seq<T>,
    gamma: Seq<T>,
    beta: Seq<T>,
    eps: T,
    number: C,
    inv_sqrt: Q,
    parts: NormParts<T>,
    y: Seq<T>,
) -> bool {
    &&& is_zero(parts.zero)
    &&& welford_gives(parts.zero, x, number, parts.mean, parts.m2)
    &&& call_ensures(number, (x.len() as usize,), parts.count)
    &&& divides_to(parts.m2, parts.count, parts.var)
    &&& adds_to(parts.var, eps, parts.shifted)
    &&& call_ensures(inv_sqrt, (parts.shifted,), parts.inv_std)
    &&& y.len() == x.len()
    &&& forall|i: int|
        0 <= i < x.len() ==> normalizes_to(
            x[i],
            parts.mean,
            parts.inv_std,
            gamma[i],
            beta[i],
            #[trigger] y[i],
        )
}

/// The normalized row `x` may come out as `y`.
pub open spec fn layer_norm_gives<
    T: Default + Add<Output = T> + Sub<Output = T> + Mul<Output = T> + Div<Output = T>,
    C: Fn(usize) -> T,
    Q: Fn(T) -> T,
>(
    x: Seq<T>,
    gamma: Seq<T>,
    beta: Seq<T>,
    eps: T,
    number: C,
    inv_sqrt: Q,
    y: Seq<T>,
) -> bool {
    exists|parts: NormParts<T>|
        #[trigger] layer_norm_by(x, gamma, beta, eps, number, inv_sqrt, parts, y)
}

/// Layer normalization of one row. `number` is a count as an element, `inv_sqrt`
/// one over the square root.
pub fn layer_norm_row<
    T: Copy + Default + Add<Output = T> + Sub<Output = T> + Mul<Output = T> + Div<Output = T>,
    C: Fn(usize) -> T,
    Q: Fn(T) -> T,
>(row: &[T], gamma: &[T], beta: &[T], eps: T, number: &C, inv_sqrt: &Q) -> (res: Vec<T>)
    requires
        gamma@.len() == row@.len(),
        beta@.len() == row@.len(),
        can_add::<T>(),
        can_subtract::<T>(),
        can_multiply::<T>(),
        can_divide::<T>(),
        forall|n: usize| #[trigger] call_requires(*number, (n,)),
        forall|v: T| #[trigger] call_requires(*inv_sqrt, (v,)),
    ensures
        layer_norm_gives(row@, gamma@, beta@, eps, *number, *inv_sqrt, res@),
{
    let n: usize = row.len();
    let zero = T::default();
    let mut mean: T = zero;
    let mut m2: T = zero;
    let mut i: usize = 0;
    assert(welford_gives(zero, row@.take(0), *number, mean, m2));
    while i < n
        invariant
            i <= n,
            n == row@.len(),
            can_add::<T>(),
            can_subtract::<T>(),
            can_multiply::<T>(),
            can_divide::<T>(),
            forall|n: usize| #[trigger] call_requires(*number, (n,)),
            welford_gives(zero, row@.take(i as int), *number, mean, m2),
        decreases n - i,
    {
        let ghost mean0 = mean;
        let ghost m20 = m2;
        let v: T = row[i];
        i = i + 1;
        let delta = minus(v, mean);
        let count = number(i);
        let change = over(delta, count);
        mean = plus(mean, change);
        let delta2 = minus(v, mean);
        let square = times(delta, delta2);
        m2 = plus(m2, square);
        proof {
            let x = row@.take(i as int);
            assert(x.drop_last() =~= row@.take(i - 1));
            let parts = WelfordParts { delta, count, change, delta2, square };
            assert(welford_by(*number, x.len() as usize, x.last(), mean0, m20, parts, mean, m2));
        }
    }
    assert(row@.take(n as int) =~= row@);
    let count = number(n);
    let var = over(m2, count);
    let shifted = plus(var, eps);
    let inv_std = inv_sqrt(shifted);
    let mut out: Vec<T> = Vec::new();
    i = 0;
    while i < n
        invariant
            i <= n,
            n == row@.len(),
            n == gamma@.len(),
            n == beta@.len(),
            can_add::<T>(),
            can_subtract::<T>(),
            can_multiply::<T>(),
            out@.len() == i,
            forall|k: int|
                0 <= k < i ==> normalizes_to(
                    row@[k],
                    mean,
                    inv_std,
                    gamma@[k],
                    beta@[k],
                    #[trigger] out@[k],
                ),
        decreases n - i,
    {
        let centered = minus(row[i], mean);
        let unit = times(centered, inv_std);
        let scaled = times(unit, gamma[i]);
        let r = plus(scaled, beta[i]);
        assert(normalizes_to(
            row@[i as int],
            mean,
            inv_std,
            gamma@[i as int],
            beta@[i as int],
            r,
        ));
        out.push(r);
        i = i + 1;
    }
    proof {
        let parts = NormParts { zero, mean, m2, count, var, shifted, inv_std };
        assert(layer_norm_by(row@, gamma@, beta@, eps, *number, *inv_sqrt, parts, out@));
    }
    out
}

/// Applies a layer normalization of one row along the last dimension.
///
/// - `x`: input, any shape `[.., n]`
/// - `gamma`: scale, shape `[n]` (set to ones to disable)
/// - `beta`: offset, shape `[n]` (set to zeros to disable)
/// - `eps`: numerical stability constant
/// - `norm`: normalizes one row
///
/// Returns a tensor of the same shape as `x`.
pub fn layer_norm_rows<T: Copy, N: Fn(&[T], &[T], &[T], T) -> Vec<T>>(
    x: &Tensor<T>,
    gamma: &Tensor<T>,
    beta: &Tensor<T>,
    eps: T,
    norm: &N,
) -> (res: Tensor<T>)
    requires
        x.wf(),
        gamma.wf(),
        beta.wf(),
        x.dims().len() > 0,
        x.dims().last() > 0,
        gamma.dims() == seq![x.dims().last()],
        beta.dims() == seq![x.dims().last()],
        is_row_norm(*norm),
    ensures
        is_layer_norm(res, *x, *gamma, *beta, eps, *norm),
{
    proof {
        lemma_product_1(gamma.dims());
        lemma_product_1(beta.dims());
    }
    let g = gamma.data();
    let b = beta.data();
    let f = |row: &[T]| -> (out: Vec<T>)
        requires
            row@.len() == g@.len(),
        ensures
            call_ensures(*norm, (row, g, b, eps), out),
        { norm(row, g, b, eps) };
    let res = map_rows(x, &f);
    proof {
        let n = x.dims().last() as int;
        assert forall|r: int| 0 <= r < row_count(x.dims()) implies row_normalizes(
            *norm,
            row_of(x.elems(), n, r),
            gamma.elems(),
            beta.elems(),
            eps,
            #[trigger] row_of(res.elems(), n, r),
        ) by {
            assert(row_becomes(f, row_of(x.elems(), n, r), row_of(res.elems(), n, r)));
        }
    }
    res
}

/// Applies layer normalization along the last dimension.
///
/// - `x`: input, any shape `[.., n]`
/// - `gamma`: scale, shape `[n]` (set to ones to disable)
/// - `beta`: offset, shape `[n]` (set to zeros to disable)
/// - `eps`: numerical stability constant
/// - `number`: a count as an element
/// - `inv_sqrt`: one over the square root
///
/// Returns a tensor of the same shape as `x`.
pub fn layer_norm<
    T: Copy + Default + Add<Output = T> + Sub<Output = T> + Mul<Output = T> + Div<Output = T>,
    C: Fn(usize) -> T,
    Q: Fn(T) -> T,
>(
    x: &Tensor<T>,
    gamma: &Tensor<T>,
    beta: &Tensor<T>,
    eps: T,
    number: &C,
    inv_sqrt: &Q,
) -> (res: Tensor<T>)
    requires
        x.wf(),
        gamma.wf(),
        beta.wf(),
        x.dims().len() > 0,
        x.dims().last() > 0,
        gamma.dims() == seq![x.dims().last()],
        beta.dims() == seq![x.dims().last()],
        can_add::<T>(),
        can_subtract::<T>(),
        can_multiply::<T>(),
        can_divide::<T>(),
        forall|n: usize| #[trigger] call_requires(*number, (n,)),
        forall|v: T| #[trigger] call_requires(*inv_sqrt, (v,)),
    ensures
        res.wf(),
        res.dims() == x.dims(),
        forall|r: int|
            0 <= r < row_count(x.dims()) ==> layer_norm_gives(
                row_of(x.elems(), x.dims().last() as int, r),
                gamma.elems(),
                beta.elems(),
                eps,
                *number,
                *inv_sqrt,
                #[trigger] row_of(res.elems(), x.dims().last() as int, r),
            ),
{
    let norm = |row: &[T], g: &[T], b: &[T], e: T| -> (out: Vec<T>)
        requires
            g@.len() == row@.len(),
            b@.len() == row@.len(),
        ensures
            layer_norm_gives(row@, g@, b@, e, *number, *inv_sqrt, out@),
        { layer_norm_row(row, g, b, e, number, inv_sqrt) };
    let res = layer_norm_rows(x, gamma, beta, eps, &norm);
    proof {
        let n = x.dims().last() as int;
        assert forall|r: int| 0 <= r < row_count(x.dims()) implies layer_norm_gives(
            row_of(x.elems(), n, r),
            gamma.elems(),
            beta.elems(),
            eps,
            *number,
            *inv_sqrt,
            #[trigger] row_of(res.elems(), n, r),
        ) by {
            assert(row_normalizes(
                norm,
                row_of(x.elems(), n, r),
                gamma.elems(),
                beta.elems(),
                eps,
                row_of(res.elems(), n, r),
            ));
        }
    }
    res
}

} // verus!
