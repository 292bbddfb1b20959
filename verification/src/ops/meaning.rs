//! What the operations on rows and elements amount to where elements compute
//! without rounding.

use vstd::prelude::*;
use core::ops::{Add, Div, Mul, Neg, Sub};
use crate::exact::{is_exact, lemma_dot, lemma_sum, lemma_total_eq, total};
use crate::num::{
    adds_to, divides_to, is_greater, is_zero, multiplies_to, negates_to, subtracts_to,
};
use crate::ops::activations::{
    ErfConstants, ErfParts, TanhConstants, erf_by, erf_gives, gated_gives, gelu_erf_gives,
    gelu_tanh_gives, horner_gives, relu_gives, silu_gives, tanh_argument_gives,
};
use crate::ops::layernorm::{
    NormParts, WelfordParts, layer_norm_by, layer_norm_gives, normalizes_to, welford_by,
    welford_gives,
};
use crate::ops::rms_norm::{RmsParts, rms_norm_by, rms_norm_gives, scales_to};
use crate::ops::softmax::{SoftmaxParts, max_gives, softmax_by, softmax_gives};
use crate::quant::meaning::{compares_exactly, divides_exactly, magnitude, measures_exactly};

verus! {

/// Counts are converted to elements that stand for them.
pub open spec fn counts_exactly<T, C: Fn(usize) -> T>(value: spec_fn(T) -> int, number: C) -> bool {
    forall|n: usize, c: T| #[trigger] call_ensures(number, (n,), c) ==> value(c) == n
}

/// ReLU gives the element where it is positive, and zero elsewhere.
pub proof fn lemma_relu<T: PartialOrd>(value: spec_fn(T) -> int, v: T, zero: T, r: T)
    requires
        compares_exactly(value),
        value(zero) == 0,
        relu_gives(v, zero, r),
    ensures
        value(r) == if value(v) > 0 {
            value(v)
        } else {
            0
        },
{
}

/// SiLU times one and the exponential of the opposite is the element.
pub proof fn lemma_silu<
    T: Default + Add<Output = T> + Mul<Output = T> + Sub<Output = T> + Div<Output = T> + Neg<
        Output = T,
    >,
    E: Fn(T) -> T,
>(value: spec_fn(T) -> int, v: T, one: T, exp: E, r: T)
    requires
        is_exact(value),
        divides_exactly::<T>(value),
        silu_gives(v, one, exp, r),
    ensures
        exists|opposite: T, e: T| #[trigger]
            call_ensures(exp, (opposite,), e) && value(opposite) == -value(v) && value(r) * (value(
                one,
            ) + value(e)) == value(v),
{
    let (negated, e, below) = choose|negated: T, e: T, below: T|
        #![trigger negates_to(v, negated), adds_to(one, e, below)]
        negates_to(v, negated) && call_ensures(exp, (negated,), e) && adds_to(one, e, below)
            && divides_to(v, below, r);
    assert(call_ensures(exp, (negated,), e) && value(negated) == -value(v));
}

/// GELU by the hyperbolic tangent: half the element times one and the tangent of
/// `scale * (v + cubic * v^3)`.
pub proof fn lemma_gelu_tanh<T: Default + Add<Output = T> + Mul<Output = T>, H: Fn(T) -> T>(
    value: spec_fn(T) -> int,
    v: T,
    constants: &TanhConstants<T>,
    tanh: H,
    r: T,
)
    requires
        is_exact(value),
        gelu_tanh_gives(v, constants, tanh, r),
    ensures
        exists|inner: T, g: T| #[trigger]
            call_ensures(tanh, (inner,), g) && value(inner) == value(constants.scale) * (value(v)
                + value(constants.cubic) * value(v) * value(v) * value(v)) && value(r) == value(
                constants.half,
            ) * value(v) * (value(constants.one) + value(g)),
{
    let (inner, g) = choose|inner: T, g: T|
        #![trigger tanh_argument_gives(v, constants, inner), gated_gives(v, constants.half,
            constants.one, g, r)]
        tanh_argument_gives(v, constants, inner) && call_ensures(tanh, (inner,), g) && gated_gives(
            v,
            constants.half,
            constants.one,
            g,
            r,
        );
    assert(call_ensures(tanh, (inner,), g));
}

/// GELU by the error function: half the element times one and the error function of
/// the element over the square root of two.
pub proof fn lemma_gelu_erf<T: Default + Add<Output = T> + Mul<Output = T>, F: Fn(T) -> T>(
    value: spec_fn(T) -> int,
    v: T,
    half: T,
    one: T,
    inv_sqrt2: T,
    erf: F,
    r: T,
)
    requires
        is_exact(value),
        gelu_erf_gives(v, half, one, inv_sqrt2, erf, r),
    ensures
        exists|inner: T, g: T| #[trigger]
            call_ensures(erf, (inner,), g) && value(inner) == value(v) * value(inv_sqrt2) && value(
                r,
            ) == value(half) * value(v) * (value(one) + value(g)),
{
    let (inner, g) = choose|inner: T, g: T|
        #![trigger multiplies_to(v, inv_sqrt2, inner), gated_gives(v, half, one, g, r)]
        multiplies_to(v, inv_sqrt2, inner) && call_ensures(erf, (inner,), g) && gated_gives(
            v,
            half,
            one,
            g,
            r,
        );
    assert(call_ensures(erf, (inner,), g));
}

/// The `n`-th power.
pub open spec fn power(t: int, n: int) -> int
    decreases n,
{
    if n <= 0 {
        1
    } else {
        power(t, n - 1) * t
    }
}

/// A polynomial, the leading coefficient first.
proof fn lemma_horner<T: Default + Add<Output = T> + Mul<Output = T>>(
    value: spec_fn(T) -> int,
    coefficients: Seq<T>,
    t: T,
    r: T,
)
    requires
        is_exact(value),
        coefficients.len() > 0,
        horner_gives(coefficients, t, r),
    ensures
        value(r) == total(
            |i: int| value(coefficients[i]) * power(value(t), coefficients.len() - 1 - i),
            coefficients.len() as int,
        ),
    decreases coefficients.len(),
{
    let n = coefficients.len() as int;
    let x = value(t);
    let f = |i: int| value(coefficients[i]) * power(x, n - 1 - i);
    if n == 1 {
        assert(total(f, 0) == 0);
        assert(f(0) == value(coefficients[0])) by {
            assert(power(x, 0) == 1);
        }
    } else {
        let before = coefficients.drop_last();
        let (acc, product) = choose|acc: T, product: T|
            #![trigger multiplies_to(acc, t, product)]
            horner_gives(before, t, acc) && multiplies_to(acc, t, product) && adds_to(
                product,
                coefficients.last(),
                r,
            );
        lemma_horner(value, before, t, acc);
        let g = |i: int| value(before[i]) * power(x, before.len() - 1 - i);
        assert forall|i: int| 0 <= i < n - 1 implies #[trigger] f(i) == g(i) * x by {
            let (c, q) = (value(coefficients[i]), power(x, n - 2 - i));
            assert(before[i] == coefficients[i]);
            assert(c * (q * x) == c * q * x) by (nonlinear_arith);
        }
        lemma_total_times(g, f, x, n - 1);
        assert(f(n - 1) == value(coefficients.last())) by {
            assert(power(x, 0) == 1);
        }
    }
}

proof fn lemma_total_times(g: spec_fn(int) -> int, f: spec_fn(int) -> int, x: int, n: int)
    requires
        0 <= n,
        forall|i: int| 0 <= i < n ==> #[trigger] f(i) == g(i) * x,
    ensures
        total(f, n) == total(g, n) * x,
    decreases n,
{
    if n > 0 {
        lemma_total_times(g, f, x, n - 1);
        assert(f(n - 1) == g(n - 1) * x);
        let (a, b) = (total(g, n - 1), g(n - 1));
        assert((a + b) * x == a * x + b * x) by (nonlinear_arith);
    }
}

/// The error function at `v` by way of `t` and the exponential of minus the square.
pub open spec fn is_erf_of<T, E: Fn(T) -> T>(
    value: spec_fn(T) -> int,
    v: int,
    constants: ErfConstants<'_, T>,
    exp: E,
    t: int,
    square: T,
    e: T,
    r: int,
) -> bool {
    let n = constants.coefficients@.len() as int;
    let poly = total(|i: int| value(constants.coefficients@[i]) * power(t, n - 1 - i), n);
    let y = 1 - poly * t * value(e);
    &&& call_ensures(exp, (square,), e)
    &&& value(square) == -(v * v)
    &&& t * (1 + value(constants.p) * magnitude(v)) == 1
    &&& r == if v < 0 {
        -y
    } else {
        y
    }
}

/// The error function has the sign of its argument; for the magnitude `x` it is `1 -
/// poly(t) * t * exp(-x * x)`, where `t` times one and `p * x` is one.
pub proof fn lemma_erf<
    T: PartialOrd + Default + Add<Output = T> + Sub<Output = T> + Mul<Output = T> + Div<
        Output = T,
    > + Neg<Output = T>,
    E: Fn(T) -> T,
    B: Fn(T) -> T,
>(value: spec_fn(T) -> int, v: T, constants: ErfConstants<'_, T>, exp: E, abs: B, r: T)
    requires
        is_exact(value),
        compares_exactly(value),
        divides_exactly::<T>(value),
        measures_exactly(value, abs),
        value(constants.one) == 1,
        constants.coefficients@.len() > 0,
        erf_gives(v, constants, exp, abs, r),
    ensures
        exists|t: int, square: T, e: T| #[trigger]
            is_erf_of(value, value(v), constants, exp, t, square, e, value(r)),
{
    let parts = choose|parts: ErfParts<T>| #[trigger] erf_by(v, constants, exp, abs, parts, r);
    lemma_horner(value, constants.coefficients@, parts.t, parts.poly);
    let (x, w) = (value(parts.x), value(v));
    assert(-x * x == -(w * w)) by (nonlinear_arith)
        requires
            x == w || x == -w,
    ;
    let t = value(parts.t);
    let p = value(constants.p);
    assert(t * (1 + p * magnitude(w)) == 1);
    let y = value(parts.y);
    assert(value(r) == if w < 0 {
        -y
    } else {
        y
    }) by {
        assert(-1 * y == -y && 1 * y == y);
    }
    assert(is_erf_of(value, w, constants, exp, t, parts.minus_square, parts.e, value(r)));
}

/// What the mean and the sum of squared deviations come to: the mean times the
/// number of elements is their sum, and the deviations are what the squares have
/// beyond those of the mean.
proof fn lemma_mean_and_deviations<
    T: Default + Add<Output = T> + Sub<Output = T> + Mul<Output = T> + Div<Output = T> + Neg<
        Output = T,
    >,
    C: Fn(usize) -> T,
>(value: spec_fn(T) -> int, zero: T, x: Seq<T>, number: C, mean: T, m2: T)
    requires
        is_exact(value),
        divides_exactly::<T>(value),
        counts_exactly(value, number),
        is_zero(zero),
        x.len() <= usize::MAX,
        welford_gives(zero, x, number, mean, m2),
    ensures
        value(mean) * x.len() == total(|i: int| value(x[i]), x.len() as int),
        value(m2) + value(mean) * value(mean) * x.len() == total(
            |i: int| value(x[i]) * value(x[i]),
            x.len() as int,
        ),
    decreases x.len(),
{
    let n = x.len() as int;
    let f = |i: int| value(x[i]);
    let s = |i: int| value(x[i]) * value(x[i]);
    if n > 0 {
        let before = x.drop_last();
        let f0 = |i: int| value(before[i]);
        let s0 = |i: int| value(before[i]) * value(before[i]);
        let (mean0, m20, parts) = choose|mean0: T, m20: T, parts: WelfordParts<T>|
            #![trigger welford_by(number, x.len() as usize, x.last(), mean0, m20, parts, mean, m2)]
            welford_gives(zero, before, number, mean0, m20) && welford_by(
                number,
                x.len() as usize,
                x.last(),
                mean0,
                m20,
                parts,
                mean,
                m2,
            );
        lemma_mean_and_deviations(value, zero, before, number, mean0, m20);
        assert forall|i: int| 0 <= i < n - 1 implies #[trigger] f(i) == f0(i) by {
            assert(before[i] == x[i]);
        }
        lemma_total_eq(f, f0, n - 1);
        assert forall|i: int| 0 <= i < n - 1 implies #[trigger] s(i) == s0(i) by {
            assert(before[i] == x[i]);
        }
        lemma_total_eq(s, s0, n - 1);
        let (v, a, b, c) = (value(x.last()), value(mean0), value(mean), value(parts.change));
        assert(c * n == v - a && b == a + c);
        assert(b * n == a * (n - 1) + v) by (nonlinear_arith)
            requires
                c * n == v - a,
                b == a + c,
        ;
        assert((v - a) * (v - b) + b * b * n == a * a * (n - 1) + v * v) by (nonlinear_arith)
            requires
                b * n == a * (n - 1) + v,
        ;
    } else {
        assert(total(f, 0) == 0 && total(s, 0) == 0);
        assert(value(mean) * 0 == 0 && value(mean) * value(mean) * 0 == 0) by (nonlinear_arith);
    }
}

/// `y` is `x` with this mean, and one over the square root of variance and epsilon.
pub open spec fn is_normed<T, Q: Fn(T) -> T>(
    value: spec_fn(T) -> int,
    x: Seq<T>,
    gamma: Seq<T>,
    beta: Seq<T>,
    eps: T,
    inv_sqrt: Q,
    mean: int,
    shifted: T,
    inv: T,
    y: Seq<T>,
) -> bool {
    let n = x.len() as int;
    &&& call_ensures(inv_sqrt, (shifted,), inv)
    &&& mean * n == total(|i: int| value(x[i]), n)
    &&& (value(shifted) - value(eps)) * n + mean * mean * n == total(
        |i: int| value(x[i]) * value(x[i]),
        n,
    )
    &&& forall|i: int|
        0 <= i < n ==> value(#[trigger] y[i]) == (value(x[i]) - mean) * value(inv) * value(gamma[i])
            + value(beta[i])
}

/// Layer normalization: each element less the mean, times one over the square root
/// of variance and epsilon, times its scale, plus its offset. The mean times the
/// number of elements is their sum, and so is the variance that of the squares
/// beyond those of the mean.
pub proof fn lemma_layer_norm<
    T: Default + Add<Output = T> + Sub<Output = T> + Mul<Output = T> + Div<Output = T> + Neg<
        Output = T,
    >,
    C: Fn(usize) -> T,
    Q: Fn(T) -> T,
>(
    value: spec_fn(T) -> int,
    x: Seq<T>,
    gamma: Seq<T>,
    beta: Seq<T>,
    eps: T,
    number: C,
    inv_sqrt: Q,
    y: Seq<T>,
)
    requires
        is_exact(value),
        divides_exactly::<T>(value),
        counts_exactly(value, number),
        x.len() <= usize::MAX,
        layer_norm_gives(x, gamma, beta, eps, number, inv_sqrt, y),
    ensures
        y.len() == x.len(),
        exists|mean: int, shifted: T, inv: T| #[trigger]
            is_normed(value, x, gamma, beta, eps, inv_sqrt, mean, shifted, inv, y),
{
    let parts = choose|parts: NormParts<T>| #[trigger]
        layer_norm_by(x, gamma, beta, eps, number, inv_sqrt, parts, y);
    lemma_mean_and_deviations(value, parts.zero, x, number, parts.mean, parts.m2);
    let mean = value(parts.mean);
    assert forall|i: int| 0 <= i < x.len() implies value(#[trigger] y[i]) == (value(x[i]) - mean)
        * value(parts.inv_std) * value(gamma[i]) + value(beta[i]) by {
        assert(normalizes_to(x[i], parts.mean, parts.inv_std, gamma[i], beta[i], y[i]));
    }
    assert(value(parts.shifted) - value(eps) == value(parts.var));
    assert(is_normed(
        value,
        x,
        gamma,
        beta,
        eps,
        inv_sqrt,
        mean,
        parts.shifted,
        parts.inv_std,
        y,
    ));
}

/// Normalization by the root mean square: each element times one over the square
/// root of the mean square and epsilon, times its weight.
pub proof fn lemma_rms_norm<
    T: Default + Add<Output = T> + Sub<Output = T> + Mul<Output = T> + Div<Output = T> + Neg<
        Output = T,
    >,
    C: Fn(usize) -> T,
    Q: Fn(T) -> T,
>(
    value: spec_fn(T) -> int,
    x: Seq<T>,
    weight: Seq<T>,
    eps: T,
    number: C,
    inv_sqrt: Q,
    y: Seq<T>,
)
    requires
        is_exact(value),
        divides_exactly::<T>(value),
        counts_exactly(value, number),
        x.len() <= usize::MAX,
        rms_norm_gives(x, weight, eps, number, inv_sqrt, y),
    ensures
        y.len() == x.len(),
        exists|shifted: T, inv: T| #[trigger]
            call_ensures(inv_sqrt, (shifted,), inv) && (value(shifted) - value(eps)) * x.len()
                == total(|i: int| value(x[i]) * value(x[i]), x.len() as int) && forall|i: int|
                0 <= i < x.len() ==> value(#[trigger] y[i]) == value(x[i]) * value(inv) * value(
                    weight[i],
                ),
{
    let parts = choose|parts: RmsParts<T>| #[trigger]
        rms_norm_by(x, weight, eps, number, inv_sqrt, parts, y);
    lemma_dot(value, parts.zero, x, x, parts.sum_sq);
    assert forall|i: int| 0 <= i < x.len() implies value(#[trigger] y[i]) == value(x[i]) * value(
        parts.rms_inv,
    ) * value(weight[i]) by {
        assert(scales_to(x[i], parts.rms_inv, weight[i], y[i]));
    }
    assert(value(parts.shifted) - value(eps) == value(parts.mean_sq));
    assert(call_ensures(inv_sqrt, (parts.shifted,), parts.rms_inv));
}

/// The greatest of the elements and of what it starts from.
proof fn lemma_greatest<T: PartialOrd>(value: spec_fn(T) -> int, lowest: T, x: Seq<T>, r: T)
    requires
        compares_exactly(value),
        max_gives(lowest, x, r),
    ensures
        value(lowest) <= value(r),
        forall|i: int| 0 <= i < x.len() ==> value(#[trigger] x[i]) <= value(r),
        r == lowest || x.contains(r),
    decreases x.len(),
{
    if x.len() > 0 {
        let (max, takes) = choose|max: T, takes: bool|
            #![trigger is_greater(x.last(), max, takes)]
            max_gives(lowest, x.drop_last(), max) && is_greater(x.last(), max, takes) && r
                == if takes {
                x.last()
            } else {
                max
            };
        lemma_greatest(value, lowest, x.drop_last(), max);
        assert(x[x.len() - 1] == x.last());
        assert forall|i: int| 0 <= i < x.len() implies value(#[trigger] x[i]) <= value(r) by {
            if i < x.len() - 1 {
                assert(x[i] == x.drop_last()[i]);
            }
        }
        if x.drop_last().contains(max) {
            let i = choose|i: int| 0 <= i < x.len() - 1 && x.drop_last()[i] == max;
            assert(x[i] == max);
        }
    }
}

/// Softmax: each element is the exponential of what it lies above the greatest,
/// times one over the sum of all these exponentials, or times zero where that sum is
/// not positive.
pub proof fn lemma_softmax<
    T: PartialOrd + Default + Add<Output = T> + Sub<Output = T> + Mul<Output = T> + Div<
        Output = T,
    > + Neg<Output = T>,
    E: Fn(T) -> T,
    R: Fn(T) -> T,
>(value: spec_fn(T) -> int, x: Seq<T>, lowest: T, exp: E, reciprocal: R, y: Seq<T>)
    requires
        is_exact(value),
        compares_exactly(value),
        divides_exactly::<T>(value),
        forall|i: int| 0 <= i < x.len() ==> value(lowest) < value(#[trigger] x[i]),
        x.len() > 0,
        softmax_gives(x, lowest, exp, reciprocal, y),
    ensures
        y.len() == x.len(),
        exists|k: int, exps: Seq<T>, sum: T, factor: T|
            #![trigger x[k], multiplies_to(exps[0], factor, y[0]), call_ensures(reciprocal, (sum,), factor)]
            0 <= k < x.len() && (forall|i: int|
                0 <= i < x.len() ==> value(#[trigger] x[i]) <= value(x[k])) && (forall|i: int|
                0 <= i < x.len() ==> is_exp_of(
                    value,
                    exp,
                    value(x[i]) - value(x[k]),
                    #[trigger] exps[i],
                )) && value(sum) == total(|i: int| value(exps[i]), x.len() as int) && (if value(sum)
                > 0 {
                call_ensures(reciprocal, (sum,), factor)
            } else {
                value(factor) == 0
            }) && forall|i: int|
                0 <= i < x.len() ==> value(#[trigger] y[i]) == value(exps[i]) * value(factor),
{
    let parts = choose|parts: SoftmaxParts<T>| #[trigger]
        softmax_by(x, lowest, exp, reciprocal, parts, y);
    lemma_greatest(value, lowest, x, parts.max);
    assert(value(lowest) < value(x[0]));
    assert(x.contains(parts.max));
    let k = choose|k: int| 0 <= k < x.len() && x[k] == parts.max;
    lemma_sum(value, parts.zero, parts.exps, parts.sum);
    let exps = parts.exps;
    assert forall|i: int| 0 <= i < x.len() implies is_exp_of(
        value,
        exp,
        value(x[i]) - value(x[k]),
        #[trigger] exps[i],
    ) by {
        let d = choose|d: T| #[trigger]
            subtracts_to(x[i], parts.max, d) && call_ensures(exp, (d,), exps[i]);
        assert(call_ensures(exp, (d,), exps[i]));
    }
    assert forall|i: int| 0 <= i < x.len() implies value(#[trigger] y[i]) == value(exps[i]) * value(
        parts.factor,
    ) by {
        assert(multiplies_to(exps[i], parts.factor, y[i]));
    }
    assert(multiplies_to(exps[0], parts.factor, y[0]));
    let called = call_ensures(reciprocal, (parts.sum,), parts.factor);
}

/// The exponential of an element with this value.
pub open spec fn is_exp_of<T, E: Fn(T) -> T>(
    value: spec_fn(T) -> int,
    exp: E,
    v: int,
    e: T,
) -> bool {
    exists|d: T| #[trigger] call_ensures(exp, (d,), e) && value(d) == v
}

} // verus!
