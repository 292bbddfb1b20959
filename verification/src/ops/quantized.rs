//! Weight-only quantized linear operations.

use vstd::prelude::*;
use vstd::slice::slice_subrange;
use core::ops::{Add, Mul};
use crate::num::{
    can_add, can_multiply, cell, is_zero, lemma_row_bounds, multiplies_to, plus, row_of,
    series_gives, times,
};
use crate::ops::elementwise::{add_bias, scale};
use crate::ops::linear::{bias_fits, with_bias};
use crate::ops::matmul::{append_row, lemma_rows_after_append};
use crate::quant::{
    QuantizedTensorI8, QuantizedTensorQ4, QuantizedTensorU8, i16_scales_to, param_for_row,
};
use crate::tensor::{Tensor, lemma_product_2};

verus! {

/// `a * q * scale` may come out as `term`.
pub open spec fn i8_term<T: From<i8> + Mul<Output = T>>(a: T, q: i8, scale: T, term: T) -> bool {
    exists|value: T, scaled: T|
        #![trigger multiplies_to(a, value, scaled)]
        call_ensures(<T as From<i8>>::from, (q,), value) && multiplies_to(a, value, scaled)
            && multiplies_to(scaled, scale, term)
}

/// `a * (q * scale)` may come out as `term`.
pub open spec fn i16_term<T: From<i16> + Mul<Output = T>>(a: T, q: i16, scale: T, term: T) -> bool {
    exists|weight: T|
        #![trigger multiplies_to(a, weight, term)]
        i16_scales_to(q, scale, weight) && multiplies_to(a, weight, term)
}

/// `c` is a product of the `[m, k]` matrix `a` and the transpose of an `[n, k]`
/// matrix of signed values `q` with the given scales.
pub open spec fn is_product_i8<T: From<i8> + Add<Output = T> + Mul<Output = T>>(
    c: Seq<T>,
    a: Seq<T>,
    q: spec_fn(int) -> i8,
    scales: Seq<T>,
    m: int,
    k: int,
    n: int,
    zero: T,
) -> bool {
    &&& c.len() == m * n
    &&& forall|i: int, j: int|
        0 <= i < m && 0 <= j < n ==> row_product_i8(
            row_of(a, k, i),
            q,
            j * k,
            param_for_row(scales, j),
            zero,
            #[trigger] cell(c, n, i, j),
        )
}

/// The sum of the products of `a_row` and the values from number `start` on,
/// scaled, may come out as `r`.
pub open spec fn row_product_i8<T: From<i8> + Add<Output = T> + Mul<Output = T>>(
    a_row: Seq<T>,
    q: spec_fn(int) -> i8,
    start: int,
    scale: T,
    zero: T,
    r: T,
) -> bool {
    series_gives(zero, |kk: int, t: T| i8_term(a_row[kk], q(start + kk), scale, t), a_row.len(), r)
}

/// The sum of the products of `a_row` and the scaled differences of `b_row` and
/// the zero point may come out as `r`.
pub open spec fn row_product_u8<T: From<i16> + Add<Output = T> + Mul<Output = T>>(
    a_row: Seq<T>,
    b_row: Seq<u8>,
    scale: T,
    zero_point: u8,
    zero: T,
    r: T,
) -> bool {
    series_gives(
        zero,
        |kk: int, t: T| i16_term(a_row[kk], (b_row[kk] - zero_point) as i16, scale, t),
        a_row.len(),
        r,
    )
}

/// `c` is a product of the `[m, k]` matrix `a` and the transpose of an `[n, k]`
/// matrix of unsigned values with the given scales and zero points.
pub open spec fn is_product_u8<T: From<i16> + Add<Output = T> + Mul<Output = T>>(
    c: Seq<T>,
    a: Seq<T>,
    b: Seq<u8>,
    scales: Seq<T>,
    zero_points: Seq<u8>,
    m: int,
    k: int,
    n: int,
    zero: T,
) -> bool {
    &&& c.len() == m * n
    &&& forall|i: int, j: int|
        0 <= i < m && 0 <= j < n ==> row_product_u8(
            row_of(a, k, i),
            row_of(b, k, j),
            param_for_row(scales, j),
            param_for_row(zero_points, j),
            zero,
            #[trigger] cell(c, n, i, j),
        )
}

/// One product of a row with scaled signed values.
fn dot_i8<T: Copy + From<i8> + Add<Output = T> + Mul<Output = T>>(
    a_row: &[T],
    values: &[i8],
    scale: T,
    zero: T,
    Ghost(q): Ghost<spec_fn(int) -> i8>,
    Ghost(start): Ghost<int>,
) -> (res: T)
    requires
        a_row@.len() == values@.len(),
        forall|kk: int| 0 <= kk < values@.len() ==> #[trigger] values@[kk] == q(start + kk),
        can_add::<T>(),
        can_multiply::<T>(),
        forall|v: i8| #[trigger] call_requires(<T as From<i8>>::from, (v,)),
    ensures
        row_product_i8(a_row@, q, start, scale, zero, res),
{
    let n: usize = a_row.len();
    let mut acc = zero;
    let mut kk: usize = 0;
    let ghost term = |kk: int, t: T| i8_term(a_row@[kk], q(start + kk), scale, t);
    while kk < n
        invariant
            kk <= n,
            n == a_row@.len(),
            n == values@.len(),
            forall|k: int| 0 <= k < n ==> #[trigger] values@[k] == q(start + k),
            can_add::<T>(),
            can_multiply::<T>(),
            forall|v: i8| #[trigger] call_requires(<T as From<i8>>::from, (v,)),
            term == (|kk: int, t: T| i8_term(a_row@[kk], q(start + kk), scale, t)),
            series_gives(zero, term, kk as nat, acc),
        decreases n - kk,
    {
        let value = T::from(values[kk]);
        let scaled = times(a_row[kk], value);
        let t = times(scaled, scale);
        assert(term(kk as int, t));
        let next = plus(acc, t);
        assert(series_gives(zero, term, (kk + 1) as nat, next));
        acc = next;
        kk = kk + 1;
    }
    acc
}

/// Computes `C = A @ B^T` where `B` is signed 8-bit quantized.
///
/// - `a` shape: `[m, k]`
/// - `b` shape: `[n, k]`
/// - returned tensor shape: `[m, n]`
pub fn matmul_t_b_i8<T: Copy + Default + From<i8> + Add<Output = T> + Mul<Output = T>>(
    a: &Tensor<T>,
    b: &QuantizedTensorI8<T>,
) -> (res: Tensor<T>)
    requires
        a.wf(),
        a.dims().len() == 2,
        b.dims().len() == 2,
        a.dims()[1] == b.dims()[1],
        a.dims()[0] * b.dims()[0] <= usize::MAX,
        can_add::<T>(),
        can_multiply::<T>(),
        forall|v: i8| #[trigger] call_requires(<T as From<i8>>::from, (v,)),
    ensures
        res.wf(),
        res.dims() == seq![a.dims()[0], b.dims()[0]],
        exists|zero: T|
            #[trigger] is_zero(zero) && is_product_i8(
                res.elems(),
                a.elems(),
                |i: int| b.values()[i],
                b.scale_list(),
                a.dims()[0] as int,
                a.dims()[1] as int,
                b.dims()[0] as int,
                zero,
            ),
{
    let a_shape = *a.shape();
    let b_shape = *b.shape();
    proof {
        lemma_product_2(a.dims());
        lemma_product_2(b.dims());
    }
    let m: usize = a_shape.as_slice()[0];
    let k: usize = a_shape.as_slice()[1];
    let n: usize = b_shape.as_slice()[0];
    let a_data = a.data();
    let b_data = b.data();
    let _a_len: usize = a_data.len();
    let _b_len: usize = b_data.len();
    let zero = T::default();
    let ghost q = |i: int| b.values()[i];
    let mut out: Vec<T> = Vec::new();
    let mut i: usize = 0;
    while i < m
        invariant
            i <= m,
            a_data@.len() == m * k,
            m * k <= usize::MAX,
            b_data@ == b.values(),
            b_data@.len() == n * k,
            n * k <= usize::MAX,
            n == b.dims()[0],
            q == (|i: int| b.values()[i]),
            can_add::<T>(),
            can_multiply::<T>(),
            forall|v: i8| #[trigger] call_requires(<T as From<i8>>::from, (v,)),
            is_product_i8(
                out@,
                a_data@,
                q,
                b.scale_list(),
                i as int,
                k as int,
                n as int,
                zero,
            ),
        decreases m - i,
    {
        proof {
            lemma_row_bounds(i as int, m as int, k as int);
        }
        let a_row = slice_subrange(a_data, i * k, (i + 1) * k);
        let ghost before = out@;
        let mut row: Vec<T> = Vec::new();
        let mut j: usize = 0;
        while j < n
            invariant
                j <= n,
                a_row@.len() == k,
                b_data@ == b.values(),
                b_data@.len() == n * k,
                n * k <= usize::MAX,
                n == b.dims()[0],
                q == (|i: int| b.values()[i]),
                can_add::<T>(),
                can_multiply::<T>(),
                forall|v: i8| #[trigger] call_requires(<T as From<i8>>::from, (v,)),
                row@.len() == j,
                forall|c: int|
                    0 <= c < j ==> row_product_i8(
                        a_row@,
                        q,
                        c * k,
                        param_for_row(b.scale_list(), c),
                        zero,
                        #[trigger] row@[c],
                    ),
            decreases n - j,
        {
            proof {
                lemma_row_bounds(j as int, n as int, k as int);
            }
            let b_row = slice_subrange(b_data, j * k, (j + 1) * k);
            row.push(
                dot_i8(a_row, b_row, b.scale_for_row(j), zero, Ghost(q), Ghost(j * k as int)),
            );
            j = j + 1;
        }
        proof {
            lemma_rows_after_append(out@, row@, i as int, n as int);
        }
        append_row(&mut out, row.as_slice());
        proof {
            assert forall|r: int, c: int| 0 <= r < i + 1 && 0 <= c < n implies row_product_i8(
                row_of(a_data@, k as int, r),
                q,
                c * k,
                param_for_row(b.scale_list(), c),
                zero,
                #[trigger] cell(out@, n as int, r, c),
            ) by {
                if r < i {
                    assert(cell(before, n as int, r, c) == cell(out@, n as int, r, c));
                } else {
                    assert(cell(out@, n as int, r, c) == row@[c]);
                }
            }
        }
        i = i + 1;
    }
    proof {
        lemma_product_2(seq![m, n]);
        assert(is_zero(zero));
    }
    Tensor::from_vec(out, &[m, n])
}

/// `x @ W^T + b`, where `W` is signed 8-bit quantized, may come out as `out`.
pub open spec fn linear_i8_gives<T: Default + From<i8> + Add<Output = T> + Mul<Output = T>>(
    x: &Tensor<T>,
    weight: &QuantizedTensorI8<T>,
    bias: Option<&Tensor<T>>,
    out: Seq<T>,
) -> bool {
    exists|y: Seq<T>, zero: T|
        #![trigger with_bias(out, y, bias), is_zero(zero)]
        is_zero(zero) && is_product_i8(
            y,
            x.elems(),
            |i: int| weight.values()[i],
            weight.scale_list(),
            x.dims()[0] as int,
            x.dims()[1] as int,
            weight.dims()[0] as int,
            zero,
        ) && with_bias(out, y, bias)
}

/// Applies `y = x @ W^T + b` where `W` is signed 8-bit quantized.
pub fn linear_i8<T: Copy + Default + From<i8> + Add<Output = T> + Mul<Output = T>>(
    x: &Tensor<T>,
    weight: &QuantizedTensorI8<T>,
    bias: Option<&Tensor<T>>,
) -> (res: Tensor<T>)
    requires
        x.wf(),
        x.dims().len() == 2,
        weight.dims().len() == 2,
        x.dims()[1] == weight.dims()[1],
        x.dims()[0] * weight.dims()[0] <= usize::MAX,
        bias_fits(bias, weight.dims()[0]),
        can_add::<T>(),
        can_multiply::<T>(),
        forall|v: i8| #[trigger] call_requires(<T as From<i8>>::from, (v,)),
    ensures
        res.wf(),
        res.dims() == seq![x.dims()[0], weight.dims()[0]],
        linear_i8_gives(x, weight, bias, res.elems()),
{
    let y = matmul_t_b_i8(x, weight);
    add_optional_bias(y, bias)
}

/// One product of a row with scaled differences from the zero point.
fn dot_u8<T: Copy + From<i16> + Add<Output = T> + Mul<Output = T>>(
    a_row: &[T],
    b_row: &[u8],
    scale: T,
    zero_point: u8,
    zero: T,
) -> (res: T)
    requires
        a_row@.len() == b_row@.len(),
        can_add::<T>(),
        can_multiply::<T>(),
        forall|v: i16| #[trigger] call_requires(<T as From<i16>>::from, (v,)),
    ensures
        row_product_u8(a_row@, b_row@, scale, zero_point, zero, res),
{
    let n: usize = a_row.len();
    let mut acc = zero;
    let mut kk: usize = 0;
    let ghost term = |kk: int, t: T|
        i16_term(a_row@[kk], (b_row@[kk] - zero_point) as i16, scale, t);
    while kk < n
        invariant
            kk <= n,
            n == a_row@.len(),
            n == b_row@.len(),
            can_add::<T>(),
            can_multiply::<T>(),
            forall|v: i16| #[trigger] call_requires(<T as From<i16>>::from, (v,)),
            term == (|kk: int, t: T|
                i16_term(a_row@[kk], (b_row@[kk] - zero_point) as i16, scale, t)),
            series_gives(zero, term, kk as nat, acc),
        decreases n - kk,
    {
        let q: i16 = b_row[kk] as i16 - zero_point as i16;
        let value = T::from(q);
        let weight = times(value, scale);
        assert(i16_scales_to(q, scale, weight));
        let t = times(a_row[kk], weight);
        assert(term(kk as int, t));
        let next = plus(acc, t);
        assert(series_gives(zero, term, (kk + 1) as nat, next));
        acc = next;
        kk = kk + 1;
    }
    acc
}

/// Computes `C = A @ B^T` where `B` is unsigned affine 8-bit quantized.
///
/// - `a` shape: `[m, k]`
/// - `b` shape: `[n, k]`
/// - returned tensor shape: `[m, n]`
pub fn matmul_t_b_u8<T: Copy + Default + From<i16> + Add<Output = T> + Mul<Output = T>>(
    a: &Tensor<T>,
    b: &QuantizedTensorU8<T>,
) -> (res: Tensor<T>)
    requires
        a.wf(),
        a.dims().len() == 2,
        b.dims().len() == 2,
        a.dims()[1] == b.dims()[1],
        a.dims()[0] * b.dims()[0] <= usize::MAX,
        can_add::<T>(),
        can_multiply::<T>(),
        forall|v: i16| #[trigger] call_requires(<T as From<i16>>::from, (v,)),
    ensures
        res.wf(),
        res.dims() == seq![a.dims()[0], b.dims()[0]],
        exists|zero: T|
            #[trigger] is_zero(zero) && is_product_u8(
                res.elems(),
                a.elems(),
                b.values(),
                b.scale_list(),
                b.zero_point_list(),
                a.dims()[0] as int,
                a.dims()[1] as int,
                b.dims()[0] as int,
                zero,
            ),
{
    let a_shape = *a.shape();
    let b_shape = *b.shape();
    proof {
        lemma_product_2(a.dims());
        lemma_product_2(b.dims());
    }
    let m: usize = a_shape.as_slice()[0];
    let k: usize = a_shape.as_slice()[1];
    let n: usize = b_shape.as_slice()[0];
    let a_data = a.data();
    let b_data = b.data();
    let _a_len: usize = a_data.len();
    let _b_len: usize = b_data.len();
    let zero = T::default();
    let mut out: Vec<T> = Vec::new();
    let mut i: usize = 0;
    while i < m
        invariant
            i <= m,
            a_data@.len() == m * k,
            m * k <= usize::MAX,
            b_data@ == b.values(),
            b_data@.len() == n * k,
            n * k <= usize::MAX,
            n == b.dims()[0],
            can_add::<T>(),
            can_multiply::<T>(),
            forall|v: i16| #[trigger] call_requires(<T as From<i16>>::from, (v,)),
            is_product_u8(
                out@,
                a_data@,
                b_data@,
                b.scale_list(),
                b.zero_point_list(),
                i as int,
                k as int,
                n as int,
                zero,
            ),
        decreases m - i,
    {
        proof {
            lemma_row_bounds(i as int, m as int, k as int);
        }
        let a_row = slice_subrange(a_data, i * k, (i + 1) * k);
        let ghost before = out@;
        let mut row: Vec<T> = Vec::new();
        let mut j: usize = 0;
        while j < n
            invariant
                j <= n,
                a_row@.len() == k,
                b_data@ == b.values(),
                b_data@.len() == n * k,
                n * k <= usize::MAX,
                n == b.dims()[0],
                    can_add::<T>(),
                can_multiply::<T>(),
                forall|v: i16| #[trigger] call_requires(<T as From<i16>>::from, (v,)),
                row@.len() == j,
                forall|c: int|
                    0 <= c < j ==> row_product_u8(
                        a_row@,
                        row_of(b_data@, k as int, c),
                        param_for_row(b.scale_list(), c),
                        param_for_row(b.zero_point_list(), c),
                        zero,
                        #[trigger] row@[c],
                    ),
            decreases n - j,
        {
            proof {
                lemma_row_bounds(j as int, n as int, k as int);
            }
            let b_row = slice_subrange(b_data, j * k, (j + 1) * k);
            row.push(
                dot_u8(a_row, b_row, b.scale_for_row(j), b.zero_point_for_row(j), zero),
            );
            j = j + 1;
        }
        proof {
            lemma_rows_after_append(out@, row@, i as int, n as int);
        }
        append_row(&mut out, row.as_slice());
        proof {
            assert forall|r: int, c: int| 0 <= r < i + 1 && 0 <= c < n implies row_product_u8(
                row_of(a_data@, k as int, r),
                row_of(b_data@, k as int, c),
                param_for_row(b.scale_list(), c),
                param_for_row(b.zero_point_list(), c),
                zero,
                #[trigger] cell(out@, n as int, r, c),
            ) by {
                if r < i {
                    assert(cell(before, n as int, r, c) == cell(out@, n as int, r, c));
                } else {
                    assert(cell(out@, n as int, r, c) == row@[c]);
                }
            }
        }
        i = i + 1;
    }
    proof {
        lemma_product_2(seq![m, n]);
        assert(is_zero(zero));
    }
    Tensor::from_vec(out, &[m, n])
}

/// `x @ W^T + b`, where `W` is affine 8-bit quantized, may come out as `out`.
pub open spec fn linear_u8_gives<T: Default + From<i16> + Add<Output = T> + Mul<Output = T>>(
    x: &Tensor<T>,
    weight: &QuantizedTensorU8<T>,
    bias: Option<&Tensor<T>>,
    out: Seq<T>,
) -> bool {
    exists|y: Seq<T>, zero: T|
        #![trigger with_bias(out, y, bias), is_zero(zero)]
        is_zero(zero) && is_product_u8(
            y,
            x.elems(),
            weight.values(),
            weight.scale_list(),
            weight.zero_point_list(),
            x.dims()[0] as int,
            x.dims()[1] as int,
            weight.dims()[0] as int,
            zero,
        ) && with_bias(out, y, bias)
}

/// Applies `y = x @ W^T + b` where `W` is unsigned affine 8-bit quantized.
pub fn linear_u8<T: Copy + Default + From<i16> + Add<Output = T> + Mul<Output = T>>(
    x: &Tensor<T>,
    weight: &QuantizedTensorU8<T>,
    bias: Option<&Tensor<T>>,
) -> (res: Tensor<T>)
    requires
        x.wf(),
        x.dims().len() == 2,
        weight.dims().len() == 2,
        x.dims()[1] == weight.dims()[1],
        x.dims()[0] * weight.dims()[0] <= usize::MAX,
        bias_fits(bias, weight.dims()[0]),
        can_add::<T>(),
        can_multiply::<T>(),
        forall|v: i16| #[trigger] call_requires(<T as From<i16>>::from, (v,)),
    ensures
        res.wf(),
        res.dims() == seq![x.dims()[0], weight.dims()[0]],
        linear_u8_gives(x, weight, bias, res.elems()),
{
    let y = matmul_t_b_u8(x, weight);
    add_optional_bias(y, bias)
}

/// One product of a row with the scaled values from number `start` on.
fn dot_q4<T: Copy + From<i8> + Add<Output = T> + Mul<Output = T>>(
    a_row: &[T],
    b: &QuantizedTensorQ4<T>,
    start: usize,
    scale: T,
    zero: T,
) -> (res: T)
    requires
        start + a_row@.len() <= b.count(),
        can_add::<T>(),
        can_multiply::<T>(),
        forall|v: i8| #[trigger] call_requires(<T as From<i8>>::from, (v,)),
    ensures
        row_product_i8(a_row@, |i: int| b.value(i), start as int, scale, zero, res),
{
    let n: usize = a_row.len();
    let _count: usize = b.len();
    let ghost q = |i: int| b.value(i);
    let mut acc = zero;
    let mut kk: usize = 0;
    let ghost term = |kk: int, t: T| i8_term(a_row@[kk], q(start + kk), scale, t);
    while kk < n
        invariant
            kk <= n,
            n == a_row@.len(),
            start + n <= b.count() <= usize::MAX,
            q == (|i: int| b.value(i)),
            can_add::<T>(),
            can_multiply::<T>(),
            forall|v: i8| #[trigger] call_requires(<T as From<i8>>::from, (v,)),
            term == (|kk: int, t: T| i8_term(a_row@[kk], q(start + kk), scale, t)),
            series_gives(zero, term, kk as nat, acc),
        decreases n - kk,
    {
        let value = T::from(b.get(start + kk));
        let scaled = times(a_row[kk], value);
        let t = times(scaled, scale);
        assert(term(kk as int, t));
        let next = plus(acc, t);
        assert(series_gives(zero, term, (kk + 1) as nat, next));
        acc = next;
        kk = kk + 1;
    }
    acc
}

/// Computes `C = A @ B^T` where `B` is packed signed 4-bit quantized.
///
/// - `a` shape: `[m, k]`
/// - `b` shape: `[n, k]`
/// - returned tensor shape: `[m, n]`
pub fn matmul_t_b_q4<T: Copy + Default + From<i8> + Add<Output = T> + Mul<Output = T>>(
    a: &Tensor<T>,
    b: &QuantizedTensorQ4<T>,
) -> (res: Tensor<T>)
    requires
        a.wf(),
        a.dims().len() == 2,
        b.dims().len() == 2,
        a.dims()[1] == b.dims()[1],
        a.dims()[0] * b.dims()[0] <= usize::MAX,
        can_add::<T>(),
        can_multiply::<T>(),
        forall|v: i8| #[trigger] call_requires(<T as From<i8>>::from, (v,)),
    ensures
        res.wf(),
        res.dims() == seq![a.dims()[0], b.dims()[0]],
        exists|zero: T|
            #[trigger] is_zero(zero) && is_product_i8(
                res.elems(),
                a.elems(),
                |i: int| b.value(i),
                b.scale_list(),
                a.dims()[0] as int,
                a.dims()[1] as int,
                b.dims()[0] as int,
                zero,
            ),
{
    let a_shape = *a.shape();
    let b_shape = *b.shape();
    proof {
        lemma_product_2(a.dims());
        lemma_product_2(b.dims());
    }
    let m: usize = a_shape.as_slice()[0];
    let k: usize = a_shape.as_slice()[1];
    let n: usize = b_shape.as_slice()[0];
    let a_data = a.data();
    let _a_len: usize = a_data.len();
    let count: usize = b.len();
    let zero = T::default();
    let ghost q = |i: int| b.value(i);
    let mut out: Vec<T> = Vec::new();
    let mut i: usize = 0;
    while i < m
        invariant
            i <= m,
            a_data@.len() == m * k,
            m * k <= usize::MAX,
            count == b.count(),
            count == n * k,
            n * k <= usize::MAX,
            n == b.dims()[0],
            q == (|i: int| b.value(i)),
            can_add::<T>(),
            can_multiply::<T>(),
            forall|v: i8| #[trigger] call_requires(<T as From<i8>>::from, (v,)),
            is_product_i8(
                out@,
                a_data@,
                q,
                b.scale_list(),
                i as int,
                k as int,
                n as int,
                zero,
            ),
        decreases m - i,
    {
        proof {
            lemma_row_bounds(i as int, m as int, k as int);
        }
        let a_row = slice_subrange(a_data, i * k, (i + 1) * k);
        let ghost before = out@;
        let mut row: Vec<T> = Vec::new();
        let mut j: usize = 0;
        while j < n
            invariant
                j <= n,
                a_row@.len() == k,
                count == b.count(),
                count == n * k,
                n * k <= usize::MAX,
                n == b.dims()[0],
                q == (|i: int| b.value(i)),
                can_add::<T>(),
                can_multiply::<T>(),
                forall|v: i8| #[trigger] call_requires(<T as From<i8>>::from, (v,)),
                row@.len() == j,
                forall|c: int|
                    0 <= c < j ==> row_product_i8(
                        a_row@,
                        q,
                        c * k,
                        param_for_row(b.scale_list(), c),
                        zero,
                        #[trigger] row@[c],
                    ),
            decreases n - j,
        {
            proof {
                lemma_row_bounds(j as int, n as int, k as int);
            }
            row.push(dot_q4(a_row, b, j * k, b.scale_for_row(j), zero));
            j = j + 1;
        }
        proof {
            lemma_rows_after_append(out@, row@, i as int, n as int);
        }
        append_row(&mut out, row.as_slice());
        proof {
            assert forall|r: int, c: int| 0 <= r < i + 1 && 0 <= c < n implies row_product_i8(
                row_of(a_data@, k as int, r),
                q,
                c * k,
                param_for_row(b.scale_list(), c),
                zero,
                #[trigger] cell(out@, n as int, r, c),
            ) by {
                if r < i {
                    assert(cell(before, n as int, r, c) == cell(out@, n as int, r, c));
                } else {
                    assert(cell(out@, n as int, r, c) == row@[c]);
                }
            }
        }
        i = i + 1;
    }
    proof {
        lemma_product_2(seq![m, n]);
        assert(is_zero(zero));
    }
    Tensor::from_vec(out, &[m, n])
}

/// `x @ W^T + b` with packed signed 4-bit weights may come out as `out`.
pub open spec fn linear_q4_gives<T: Default + From<i8> + Add<Output = T> + Mul<Output = T>>(
    x: &Tensor<T>,
    weight: &QuantizedTensorQ4<T>,
    bias: Option<&Tensor<T>>,
    out: Seq<T>,
) -> bool {
    exists|y: Seq<T>, zero: T|
        #![trigger with_bias(out, y, bias), is_zero(zero)]
        is_zero(zero) && is_product_i8(
            y,
            x.elems(),
            |i: int| weight.value(i),
            weight.scale_list(),
            x.dims()[0] as int,
            x.dims()[1] as int,
            weight.dims()[0] as int,
            zero,
        ) && with_bias(out, y, bias)
}

/// Applies `y = x @ W^T + b` where `W` is packed signed 4-bit quantized.
pub fn linear_q4<T: Copy + Default + From<i8> + Add<Output = T> + Mul<Output = T>>(
    x: &Tensor<T>,
    weight: &QuantizedTensorQ4<T>,
    bias: Option<&Tensor<T>>,
) -> (res: Tensor<T>)
    requires
        x.wf(),
        x.dims().len() == 2,
        weight.dims().len() == 2,
        x.dims()[1] == weight.dims()[1],
        x.dims()[0] * weight.dims()[0] <= usize::MAX,
        bias_fits(bias, weight.dims()[0]),
        can_add::<T>(),
        can_multiply::<T>(),
        forall|v: i8| #[trigger] call_requires(<T as From<i8>>::from, (v,)),
    ensures
        res.wf(),
        res.dims() == seq![x.dims()[0], weight.dims()[0]],
        linear_q4_gives(x, weight, bias, res.elems()),
{
    let y = matmul_t_b_q4(x, weight);
    add_optional_bias(y, bias)
}

/// Adds the bias, if there is one, to every row.
fn add_optional_bias<T: Copy + Add<Output = T>>(
    y: Tensor<T>,
    bias: Option<&Tensor<T>>,
) -> (res: Tensor<T>)
    requires
        y.wf(),
        y.dims().len() == 2,
        bias_fits(bias, y.dims()[1]),
        can_add::<T>(),
    ensures
        res.wf(),
        res.dims() == y.dims(),
        with_bias(res.elems(), y.elems(), bias),
{
    match bias {
        Some(b) => add_bias(&y, b),
        None => y,
    }
}

} // verus!
