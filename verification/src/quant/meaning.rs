//! What quantized weights amount to where elements compute without rounding.

use vstd::arithmetic::div_mod::lemma_fundamental_div_mod_converse;
use vstd::prelude::*;
use core::ops::{Add, Div, Mul, Neg, Sub};
use crate::exact::{at, is_exact, lemma_series, total};
use crate::num::{
    cell, divides_to, is_equal, is_greater, is_less, is_zero, lemma_cell_index, lemma_row_bounds,
    multiplies_to, negates_to, row_of, subtracts_to,
};
use crate::ops::linear::with_bias;
use crate::ops::quantized::{
    i8_term, i16_term, is_product_i8, is_product_u8, linear_i8_gives, linear_q4_gives,
    linear_u8_gives, row_product_i8, row_product_u8,
};
use crate::ops::softmax::max_gives;
use crate::quant::scale::{affine_params_give, magnitude_gives, min_gives, symmetric_scale_gives};
use crate::quant::{
    QuantizedTensorI8, QuantizedTensorQ4, QuantizedTensorU8, i16_scales_to, nibble_at,
    params_from_rows, quantized_with_scales, row_gives, value_of_nibble,
};
use crate::tensor::{Tensor, lemma_product_1, lemma_product_2, product};

verus! {

/// Small integers are converted to elements that stand for them.
pub open spec fn converts_exactly<T: From<i8> + From<i16>>(value: spec_fn(T) -> int) -> bool {
    &&& forall|q: i8, r: T| #[trigger]
        call_ensures(<T as From<i8>>::from, (q,), r) ==> value(r) == q
    &&& forall|q: i16, r: T| #[trigger]
        call_ensures(<T as From<i16>>::from, (q,), r) ==> value(r) == q
}

/// The weight in row `o` and column `l` of a signed 8-bit matrix: the stored
/// number times the scale of the row, or the one scale that there is.
pub open spec fn weight_i8<T>(
    value: spec_fn(T) -> int,
    weight: QuantizedTensorI8<T>,
    o: int,
    l: int,
) -> int {
    weight.values()[o * weight.dims()[1] + l] * value(
        if weight.scale_list().len() == 1 {
            weight.scale_list()[0]
        } else {
            weight.scale_list()[o]
        },
    )
}

/// The weight in row `o` and column `l` of an unsigned 8-bit matrix: how far the
/// stored number lies above the zero point, times the scale.
pub open spec fn weight_u8<T>(
    value: spec_fn(T) -> int,
    weight: QuantizedTensorU8<T>,
    o: int,
    l: int,
) -> int {
    (weight.values()[o * weight.dims()[1] + l] - if weight.zero_point_list().len() == 1 {
        weight.zero_point_list()[0]
    } else {
        weight.zero_point_list()[o]
    }) * value(
        if weight.scale_list().len() == 1 {
            weight.scale_list()[0]
        } else {
            weight.scale_list()[o]
        },
    )
}

/// `y = x @ W^T + b` with signed 8-bit weights.
pub proof fn lemma_linear_i8<T: Default + From<i8> + From<i16> + Add<Output = T> + Mul<Output = T>>(
    value: spec_fn(T) -> int,
    out: Seq<T>,
    x: Tensor<T>,
    weight: QuantizedTensorI8<T>,
    bias: Tensor<T>,
    i: int,
    o: int,
)
    requires
        is_exact(value),
        converts_exactly(value),
        linear_i8_gives(&x, &weight, Some(&bias), out),
        x.wf(),
        x.dims().len() == 2,
        weight.dims().len() == 2,
        weight.dims()[1] == x.dims()[1],
        bias.wf(),
        bias.dims() == seq![weight.dims()[0]],
        0 <= i < x.dims()[0],
        0 <= o < weight.dims()[0],
    ensures
        value(out[i * weight.dims()[0] + o]) == total(
            |l: int| at(value, x, i, l) * weight_i8(value, weight, o, l),
            weight.dims()[1] as int,
        ) + value(bias.elems()[o]),
{
    let (m, k, n) = (x.dims()[0] as int, x.dims()[1] as int, weight.dims()[0] as int);
    let q = |i: int| weight.values()[i];
    let (y, zero) = choose|y: Seq<T>, zero: T|
        #![trigger with_bias(out, y, Some(&bias)), is_zero(zero)]
        is_zero(zero) && is_product_i8(y, x.elems(), q, weight.scale_list(), m, k, n, zero)
            && with_bias(out, y, Some(&bias));
    lemma_product_2(x.dims());
    lemma_product_1(bias.dims());
    lemma_row_bounds(i, m, k);
    lemma_cell_index(i, o, m, n);
    let row = row_of(x.elems(), k, i);
    let scale = if weight.scale_list().len() == 1 {
        weight.scale_list()[0]
    } else {
        weight.scale_list()[o]
    };
    let r = cell(y, n, i, o);
    assert(row_product_i8(row, q, o * k, scale, zero, r));
    let f = |l: int| at(value, x, i, l) * weight_i8(value, weight, o, l);
    let term = |kk: int, t: T| i8_term(row[kk], q(o * k + kk), scale, t);
    assert forall|l: int, t: T| 0 <= l < k && #[trigger] term(l, t) implies value(t) == f(l) by {
        let number = q(o * k + l);
        let (v, scaled) = choose|v: T, scaled: T|
            #![trigger multiplies_to(row[l], v, scaled)]
            call_ensures(<T as From<i8>>::from, (number,), v) && multiplies_to(row[l], v, scaled)
                && multiplies_to(scaled, scale, t);
        let (a, b, c) = (value(row[l]), value(v), value(scale));
        assert(a * b * c == a * (b * c)) by (nonlinear_arith);
    }
    lemma_series(value, zero, term, f, k as nat, r);
}

/// `y = x @ W^T + b` with unsigned 8-bit weights.
pub proof fn lemma_linear_u8<T: Default + From<i8> + From<i16> + Add<Output = T> + Mul<Output = T>>(
    value: spec_fn(T) -> int,
    out: Seq<T>,
    x: Tensor<T>,
    weight: QuantizedTensorU8<T>,
    bias: Tensor<T>,
    i: int,
    o: int,
)
    requires
        is_exact(value),
        converts_exactly(value),
        linear_u8_gives(&x, &weight, Some(&bias), out),
        x.wf(),
        x.dims().len() == 2,
        weight.dims().len() == 2,
        weight.dims()[1] == x.dims()[1],
        weight.values().len() == product(weight.dims()),
        bias.wf(),
        bias.dims() == seq![weight.dims()[0]],
        0 <= i < x.dims()[0],
        0 <= o < weight.dims()[0],
    ensures
        value(out[i * weight.dims()[0] + o]) == total(
            |l: int| at(value, x, i, l) * weight_u8(value, weight, o, l),
            weight.dims()[1] as int,
        ) + value(bias.elems()[o]),
{
    let (m, k, n) = (x.dims()[0] as int, x.dims()[1] as int, weight.dims()[0] as int);
    let (y, zero) = choose|y: Seq<T>, zero: T|
        #![trigger with_bias(out, y, Some(&bias)), is_zero(zero)]
        is_zero(zero) && is_product_u8(
            y,
            x.elems(),
            weight.values(),
            weight.scale_list(),
            weight.zero_point_list(),
            m,
            k,
            n,
            zero,
        ) && with_bias(out, y, Some(&bias));
    lemma_product_2(x.dims());
    lemma_product_2(weight.dims());
    lemma_product_1(bias.dims());
    lemma_row_bounds(i, m, k);
    lemma_row_bounds(o, n, k);
    lemma_cell_index(i, o, m, n);
    let row = row_of(x.elems(), k, i);
    let stored = row_of(weight.values(), k, o);
    let scale = if weight.scale_list().len() == 1 {
        weight.scale_list()[0]
    } else {
        weight.scale_list()[o]
    };
    let point = if weight.zero_point_list().len() == 1 {
        weight.zero_point_list()[0]
    } else {
        weight.zero_point_list()[o]
    };
    let r = cell(y, n, i, o);
    assert(row_product_u8(row, stored, scale, point, zero, r));
    let f = |l: int| at(value, x, i, l) * weight_u8(value, weight, o, l);
    let term = |kk: int, t: T| i16_term(row[kk], (stored[kk] - point) as i16, scale, t);
    assert forall|l: int, t: T| 0 <= l < k && #[trigger] term(l, t) implies value(t) == f(l) by {
        let number = (stored[l] - point) as i16;
        let w = choose|w: T|
            #![trigger multiplies_to(row[l], w, t)]
            i16_scales_to(number, scale, w) && multiplies_to(row[l], w, t);
        let v = choose|v: T| #[trigger]
            call_ensures(<T as From<i16>>::from, (number,), v) && multiplies_to(v, scale, w);
        assert(value(v) == stored[l] - point);
    }
    lemma_series(value, zero, term, f, k as nat, r);
}

/// `y = x @ W^T + b` with packed 4-bit weights: each is the stored number times the
/// scale of its row, or the one scale that there is.
pub proof fn lemma_linear_q4<T: Default + From<i8> + From<i16> + Add<Output = T> + Mul<Output = T>>(
    value: spec_fn(T) -> int,
    out: Seq<T>,
    x: Tensor<T>,
    weight: QuantizedTensorQ4<T>,
    bias: Tensor<T>,
    i: int,
    o: int,
)
    requires
        is_exact(value),
        converts_exactly(value),
        linear_q4_gives(&x, &weight, Some(&bias), out),
        x.wf(),
        x.dims().len() == 2,
        weight.dims().len() == 2,
        weight.dims()[1] == x.dims()[1],
        bias.wf(),
        bias.dims() == seq![weight.dims()[0]],
        0 <= i < x.dims()[0],
        0 <= o < weight.dims()[0],
    ensures
        value(out[i * weight.dims()[0] + o]) == total(
            |l: int|
                at(value, x, i, l) * (weight.value(o * weight.dims()[1] + l) * value(
                    if weight.scale_list().len() == 1 {
                        weight.scale_list()[0]
                    } else {
                        weight.scale_list()[o]
                    },
                )),
            weight.dims()[1] as int,
        ) + value(bias.elems()[o]),
{
    let (m, k, n) = (x.dims()[0] as int, x.dims()[1] as int, weight.dims()[0] as int);
    let q = |i: int| weight.value(i);
    let (y, zero) = choose|y: Seq<T>, zero: T|
        #![trigger with_bias(out, y, Some(&bias)), is_zero(zero)]
        is_zero(zero) && is_product_i8(y, x.elems(), q, weight.scale_list(), m, k, n, zero)
            && with_bias(out, y, Some(&bias));
    lemma_product_2(x.dims());
    lemma_product_1(bias.dims());
    lemma_row_bounds(i, m, k);
    lemma_cell_index(i, o, m, n);
    let row = row_of(x.elems(), k, i);
    let scale = if weight.scale_list().len() == 1 {
        weight.scale_list()[0]
    } else {
        weight.scale_list()[o]
    };
    let r = cell(y, n, i, o);
    assert(row_product_i8(row, q, o * k, scale, zero, r));
    let f = |l: int|
        at(value, x, i, l) * (weight.value(o * weight.dims()[1] + l) * value(
            if weight.scale_list().len() == 1 {
                weight.scale_list()[0]
            } else {
                weight.scale_list()[o]
            },
        ));
    let term = |kk: int, t: T| i8_term(row[kk], q(o * k + kk), scale, t);
    assert forall|l: int, t: T| 0 <= l < k && #[trigger] term(l, t) implies value(t) == f(l) by {
        let number = q(o * k + l);
        let (v, scaled) = choose|v: T, scaled: T|
            #![trigger multiplies_to(row[l], v, scaled), multiplies_to(scaled, scale, t)]
            call_ensures(<T as From<i8>>::from, (number,), v) && multiplies_to(row[l], v, scaled)
                && multiplies_to(scaled, scale, t);
        let (a, b, c) = (value(row[l]), value(v), value(scale));
        assert(a * b * c == a * (b * c)) by (nonlinear_arith);
    }
    lemma_series(value, zero, term, f, k as nat, r);
}

/// `>`, `<` and `==` compare elements as their values compare.
pub open spec fn compares_exactly<T: PartialOrd>(value: spec_fn(T) -> int) -> bool {
    &&& forall|a: T, b: T, is: bool| #[trigger]
        is_greater(a, b, is) ==> is == (value(a) > value(b))
    &&& forall|a: T, b: T, is: bool| #[trigger] is_less(a, b, is) ==> is == (value(a) < value(b))
    &&& forall|a: T, b: T, is: bool| #[trigger]
        is_equal(a, b, is) ==> is == (value(a) == value(b))
}

/// Magnitudes, differences and opposites have those of the values, and a quotient
/// times the divisor is the dividend.
pub open spec fn divides_exactly<T: Sub<Output = T> + Div<Output = T> + Neg<Output = T>>(
    value: spec_fn(T) -> int,
) -> bool {
    &&& forall|a: T, b: T, r: T| #[trigger]
        subtracts_to(a, b, r) ==> value(r) == value(a) - value(b)
    &&& forall|a: T, b: T, r: T| #[trigger]
        divides_to(a, b, r) ==> value(r) * value(b) == value(a)
    &&& forall|a: T, r: T| #[trigger] negates_to(a, r) ==> value(r) == -value(a)
}

pub open spec fn magnitude(v: int) -> int {
    if v < 0 {
        -v
    } else {
        v
    }
}

pub open spec fn measures_exactly<T, B: Fn(T) -> T>(value: spec_fn(T) -> int, abs: B) -> bool {
    forall|a: T, r: T| #[trigger] call_ensures(abs, (a,), r) ==> value(r) == magnitude(value(a))
}

/// The greatest magnitude is that of an element, and of none a greater one; of no
/// elements it is zero.
proof fn lemma_greatest_magnitude<T: PartialOrd, B: Fn(T) -> T>(
    value: spec_fn(T) -> int,
    zero: T,
    x: Seq<T>,
    abs: B,
    r: T,
)
    requires
        compares_exactly(value),
        measures_exactly(value, abs),
        value(zero) == 0,
        magnitude_gives(zero, x, abs, r),
    ensures
        value(r) >= 0,
        forall|i: int| 0 <= i < x.len() ==> magnitude(value(#[trigger] x[i])) <= value(r),
        value(r) == 0 || exists|i: int|
            0 <= i < x.len() && magnitude(value(#[trigger] x[i])) == value(r),
    decreases x.len(),
{
    if x.len() > 0 {
        let (max, m, takes) = choose|max: T, m: T, takes: bool|
            #![trigger is_greater(m, max, takes)]
            magnitude_gives(zero, x.drop_last(), abs, max) && call_ensures(abs, (x.last(),), m)
                && is_greater(m, max, takes) && r == if takes {
                m
            } else {
                max
            };
        lemma_greatest_magnitude(value, zero, x.drop_last(), abs, max);
        assert forall|i: int| 0 <= i < x.len() implies magnitude(value(#[trigger] x[i])) <= value(
            r,
        ) by {
            if i < x.len() - 1 {
                assert(x[i] == x.drop_last()[i]);
            }
        }
        if value(r) != 0 {
            if takes {
                assert(magnitude(value(x[x.len() - 1])) == value(r));
            } else {
                let i = choose|i: int|
                    0 <= i < x.len() - 1 && magnitude(value(#[trigger] x.drop_last()[i]))
                        == value(max);
                assert(magnitude(value(x[i])) == value(r));
            }
        }
    }
}

/// The symmetric scale of a row: all levels together reach as far as the element of
/// the greatest magnitude. A row of zeros has the scale one.
pub proof fn lemma_symmetric_scale_reaches<
    T: Default + PartialOrd + Add<Output = T> + Mul<Output = T> + Sub<Output = T> + Div<Output = T>
        + Neg<Output = T>,
    B: Fn(T) -> T,
>(
    value: spec_fn(T) -> int,
    row: Seq<T>,
    one: T,
    levels: T,
    abs: B,
    zero: T,
    max_abs: T,
    scale: T,
)
    requires
        is_exact(value),
        compares_exactly(value),
        divides_exactly::<T>(value),
        measures_exactly(value, abs),
        is_zero(zero),
        magnitude_gives(zero, row, abs, max_abs),
        symmetric_scale_gives(max_abs, zero, one, levels, scale),
    ensures
        (forall|i: int| 0 <= i < row.len() ==> value(#[trigger] row[i]) == 0) ==> scale == one,
        forall|i: int|
            0 <= i < row.len() && value(row[i]) != 0 ==> magnitude(value(#[trigger] row[i]))
                <= value(scale) * value(levels),
        (exists|i: int| 0 <= i < row.len() && value(#[trigger] row[i]) != 0) ==> exists|i: int|
            0 <= i < row.len() && magnitude(value(#[trigger] row[i])) == value(scale) * value(
                levels,
            ),
{
    lemma_greatest_magnitude(value, zero, row, abs, max_abs);
}

/// The least and the greatest element of a row, between the bounds that it starts
/// from.
proof fn lemma_least_and_greatest<T: PartialOrd>(
    value: spec_fn(T) -> int,
    lowest: T,
    highest: T,
    x: Seq<T>,
    min: T,
    max: T,
)
    requires
        compares_exactly(value),
        min_gives(highest, x, min),
        max_gives(lowest, x, max),
    ensures
        value(min) <= value(highest),
        value(lowest) <= value(max),
        forall|i: int|
            0 <= i < x.len() ==> value(min) <= value(#[trigger] x[i]) && value(x[i]) <= value(max),
        min == highest || x.contains(min),
        max == lowest || x.contains(max),
    decreases x.len(),
{
    if x.len() > 0 {
        let (m, lower) = choose|m: T, takes: bool|
            #![trigger is_less(x.last(), m, takes)]
            min_gives(highest, x.drop_last(), m) && is_less(x.last(), m, takes) && min == if takes {
                x.last()
            } else {
                m
            };
        let (n, higher) = choose|n: T, takes: bool|
            #![trigger is_greater(x.last(), n, takes)]
            max_gives(lowest, x.drop_last(), n) && is_greater(x.last(), n, takes) && max
                == if takes {
                x.last()
            } else {
                n
            };
        lemma_least_and_greatest(value, lowest, highest, x.drop_last(), m, n);
        assert(x[x.len() - 1] == x.last());
        assert forall|i: int| 0 <= i < x.len() implies value(min) <= value(#[trigger] x[i])
            && value(x[i]) <= value(max) by {
            if i < x.len() - 1 {
                assert(x[i] == x.drop_last()[i]);
            }
        }
        if x.drop_last().contains(m) {
            let i = choose|i: int| 0 <= i < x.len() - 1 && x.drop_last()[i] == m;
            assert(x[i] == m);
        }
        if x.drop_last().contains(n) {
            let i = choose|i: int| 0 <= i < x.len() - 1 && x.drop_last()[i] == n;
            assert(x[i] == n);
        }
    }
}

/// Scale and zero point of a row that lies between the bounds: all levels together
/// reach from its least to its greatest element, and the zero point is what is made
/// of how many steps zero lies above the least. A row of equal elements has the
/// scale one.
pub proof fn lemma_affine_scale_reaches<
    T: PartialOrd + Sub<Output = T> + Div<Output = T> + Neg<Output = T>,
    Z: Fn(T) -> u8,
>(
    value: spec_fn(T) -> int,
    row: Seq<T>,
    one: T,
    levels: T,
    lowest: T,
    highest: T,
    to_u8: Z,
    min: T,
    max: T,
    scale: T,
    zero_point: u8,
)
    requires
        compares_exactly(value),
        divides_exactly::<T>(value),
        row.len() > 0,
        forall|i: int|
            0 <= i < row.len() ==> value(lowest) < value(#[trigger] row[i]) < value(highest),
        min_gives(highest, row, min),
        max_gives(lowest, row, max),
        affine_params_give(min, max, one, levels, to_u8, scale, zero_point),
    ensures
        row.contains(min),
        row.contains(max),
        forall|i: int|
            0 <= i < row.len() ==> value(min) <= value(#[trigger] row[i]) && value(row[i])
                <= value(max),
        value(min) == value(max) ==> scale == one,
        value(min) != value(max) ==> value(scale) * value(levels) == value(max) - value(min),
        exists|shift: T| #[trigger]
            call_ensures(to_u8, (shift,), zero_point) && value(shift) * value(scale) == -value(min),
{
    lemma_least_and_greatest(value, lowest, highest, row, min, max);
    assert(value(lowest) < value(row[0]) < value(highest));
    assert(value(min) <= value(row[0]) && value(row[0]) <= value(max));
    let (flat, range, negated, shift) = choose|flat: bool, range: T, negated: T, shift: T|
        #![trigger is_equal(max, min, flat), subtracts_to(max, min, range), negates_to(min,
            negated), divides_to(negated, scale, shift)]
        is_equal(max, min, flat) && subtracts_to(max, min, range) && (if flat {
            scale == one
        } else {
            divides_to(range, levels, scale)
        }) && negates_to(min, negated) && divides_to(negated, scale, shift) && call_ensures(
            to_u8,
            (shift,),
            zero_point,
        );
}

/// A row is quantized with a parameter of its own, and by nothing else.
pub proof fn lemma_rows_are_quantized_alone<T, Q, F: Fn(&[T]) -> T, G: Fn(T, T) -> Q>(
    values: Seq<Q>,
    elems: Seq<T>,
    scales: Seq<T>,
    rows: int,
    cols: int,
    scale_of: F,
    quantize: G,
    r: int,
    l: int,
)
    requires
        params_from_rows(scales, elems, rows, cols, scale_of),
        quantized_with_scales(values, elems, scales, cols, quantize),
        elems.len() == rows * cols,
        0 <= r < rows,
        0 <= l < cols,
    ensures
        exists|row: &[T]| #[trigger] call_ensures(scale_of, (row,), scales[r]) && row@
            == elems.subrange(r * cols, (r + 1) * cols),
        call_ensures(quantize, (elems[r * cols + l], scales[r]), values[r * cols + l]),
{
    lemma_cell_index(r, l, rows, cols);
    lemma_row_bounds(r, rows, cols);
    lemma_fundamental_div_mod_converse(r * cols + l, cols, r, l);
    let p = scales[r];
    assert(row_gives(scale_of, row_of(elems, cols, r), p));
    let v = values[r * cols + l];
}

/// A packed byte holds two values of four bits, the low ones first, each as a two's
/// complement.
pub proof fn lemma_low_nibble_first(packed: Seq<u8>, k: int, first: int, second: int)
    requires
        0 <= k < packed.len(),
        -8 <= first <= 7,
        -8 <= second <= 7,
        packed[k] == (first + 16) % 16 + 16 * ((second + 16) % 16),
    ensures
        value_of_nibble(nibble_at(packed, 2 * k)) == first,
        value_of_nibble(nibble_at(packed, 2 * k + 1)) == second,
{
}

} // verus!
