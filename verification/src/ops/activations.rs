//! Elementwise activation functions used by transformer architectures.

use vstd::prelude::*;
use core::ops::{Add, Div, Mul, Neg, Sub};
use crate::num::{
    adds_to, can_add, can_divide, can_multiply, can_negate, can_order, can_subtract, divides_to,
    greater, is_greater, is_less, is_zero, less, minus, multiplies_to, negates_to, negative, over,
    plus, subtracts_to, times,
};
use crate::tensor::Tensor;

verus! {

/// The greater of `v` and `zero` may come out as `r`.
pub open spec fn relu_gives<T: PartialOrd>(v: T, zero: T, r: T) -> bool {
    exists|positive: bool|
        #[trigger] is_greater(v, zero, positive) && r == if positive {
            v
        } else {
            zero
        }
}

/// ReLU: `max(0, x)`.
pub fn relu<T: Copy + Default + PartialOrd>(x: &Tensor<T>) -> (res: Tensor<T>)
    requires
        x.wf(),
        can_order::<T>(),
    ensures
        res.wf(),
        res.dims() == x.dims(),
        exists|zero: T|
            #[trigger] is_zero(zero) && forall|i: int|
                0 <= i < res.elems().len() ==> relu_gives(
                    x.elems()[i],
                    zero,
                    #[trigger] res.elems()[i],
                ),
{
    let zero = T::default();
    let f = |v: T| -> (r: T)
        ensures
            relu_gives(v, zero, r),
        {
            let positive: bool = greater(v, zero);
            assert(is_greater(v, zero, positive));
            if positive {
                v
            } else {
                zero
            }
        };
    let res = crate::ops::elementwise::map(x, &f);
    assert(is_zero(zero));
    res
}

/// `v / (1 + exp(-v))` may come out as `r`.
pub open spec fn silu_gives<
    T: Add<Output = T> + Div<Output = T> + Neg<Output = T>,
    E: Fn(T) -> T,
>(v: T, one: T, exp: E, r: T) -> bool {
    exists|negated: T, e: T, below: T|
        #![trigger negates_to(v, negated), adds_to(one, e, below)]
        negates_to(v, negated) && call_ensures(exp, (negated,), e) && adds_to(one, e, below)
            && divides_to(v, below, r)
}

/// SiLU (a.k.a. Swish): `x * sigmoid(x)`. `one` is the element one and `exp` the
/// exponential function.
///
/// Used by LLaMA, Mistral, and many modern decoder-only LLMs.
pub fn silu<T: Copy + Add<Output = T> + Div<Output = T> + Neg<Output = T>, E: Fn(T) -> T>(
    x: &Tensor<T>,
    one: T,
    exp: &E,
) -> (res: Tensor<T>)
    requires
        x.wf(),
        can_add::<T>(),
        can_divide::<T>(),
        can_negate::<T>(),
        forall|v: T| #[trigger] call_requires(*exp, (v,)),
    ensures
        res.wf(),
        res.dims() == x.dims(),
        forall|i: int|
            0 <= i < res.elems().len() ==> silu_gives(
                x.elems()[i],
                one,
                *exp,
                #[trigger] res.elems()[i],
            ),
{
    let f = |v: T| -> (r: T)
        ensures
            silu_gives(v, one, *exp, r),
        {
            let negated = negative(v);
            let e = exp(negated);
            let below = plus(one, e);
            let r = over(v, below);
            assert(negates_to(v, negated) && adds_to(one, e, below));
            r
        };
    crate::ops::elementwise::map(x, &f)
}

// ---------------------------------------------------------------------------
// GELU
// ---------------------------------------------------------------------------

/// `half * v * (one + g)` may come out as `r`.
pub open spec fn gated_gives<T: Add<Output = T> + Mul<Output = T>>(
    v: T,
    half: T,
    one: T,
    g: T,
    r: T,
) -> bool {
    exists|halved: T, gate: T|
        #![trigger multiplies_to(half, v, halved), adds_to(one, g, gate)]
        multiplies_to(half, v, halved) && adds_to(one, g, gate) && multiplies_to(halved, gate, r)
}

/// `half * v * (one + g)`.
fn gated<T: Copy + Add<Output = T> + Mul<Output = T>>(v: T, half: T, one: T, g: T) -> (res: T)
    requires
        can_add::<T>(),
        can_multiply::<T>(),
    ensures
        gated_gives(v, half, one, g, res),
{
    let halved = times(half, v);
    let gate = plus(one, g);
    let res = times(halved, gate);
    assert(multiplies_to(half, v, halved) && adds_to(one, g, gate));
    res
}

/// The constants of the tanh approximation.
pub struct TanhConstants<T> {
    /// One half.
    pub half: T,
    /// One.
    pub one: T,
    /// The square root of two over pi.
    pub scale: T,
    /// The coefficient of the cube.
    pub cubic: T,
}

/// `scale * (v + cubic * v * v * v)` may come out as `r`.
pub open spec fn tanh_argument_gives<T: Add<Output = T> + Mul<Output = T>>(
    v: T,
    constants: &TanhConstants<T>,
    r: T,
) -> bool {
    exists|first: T, second: T, third: T, sum: T|
        #![trigger multiplies_to(constants.cubic, v, first), multiplies_to(first, v, second),
            multiplies_to(second, v, third), adds_to(v, third, sum)]
        multiplies_to(constants.cubic, v, first) && multiplies_to(first, v, second)
            && multiplies_to(second, v, third) && adds_to(v, third, sum) && multiplies_to(
            constants.scale,
            sum,
            r,
        )
}

/// `0.5 * v * (1 + tanh(sqrt(2/pi) * (v + 0.044715 * v^3)))` may come out as `r`.
pub open spec fn gelu_tanh_gives<T: Add<Output = T> + Mul<Output = T>, H: Fn(T) -> T>(
    v: T,
    constants: &TanhConstants<T>,
    tanh: H,
    r: T,
) -> bool {
    exists|inner: T, g: T|
        #![trigger tanh_argument_gives(v, constants, inner), gated_gives(v, constants.half,
            constants.one, g, r)]
        tanh_argument_gives(v, constants, inner) && call_ensures(tanh, (inner,), g) && gated_gives(
            v,
            constants.half,
            constants.one,
            g,
            r,
        )
}

/// GELU using the tanh approximation.
///
/// `0.5 * x * (1 + tanh(sqrt(2/pi) * (x + 0.044715 * x^3)))`.
///
/// Matches HuggingFace's `gelu_new` / `gelu_pytorch_tanh`. Used by GPT-2 and
/// many BERT variants. Use [`gelu_erf`] for the exact erf-based form when the
/// model's config calls for `"gelu"` rather than `"gelu_new"`.
pub fn gelu_tanh<T: Copy + Add<Output = T> + Mul<Output = T>, H: Fn(T) -> T>(
    x: &Tensor<T>,
    constants: &TanhConstants<T>,
    tanh: &H,
) -> (res: Tensor<T>)
    requires
        x.wf(),
        can_add::<T>(),
        can_multiply::<T>(),
        forall|v: T| #[trigger] call_requires(*tanh, (v,)),
    ensures
        res.wf(),
        res.dims() == x.dims(),
        forall|i: int|
            0 <= i < res.elems().len() ==> gelu_tanh_gives(
                x.elems()[i],
                constants,
                *tanh,
                #[trigger] res.elems()[i],
            ),
{
    let f = |v: T| -> (r: T)
        ensures
            gelu_tanh_gives(v, constants, *tanh, r),
        {
            let first = times(constants.cubic, v);
            let second = times(first, v);
            let third = times(second, v);
            let sum = plus(v, third);
            let inner = times(constants.scale, sum);
            assert(tanh_argument_gives(v, constants, inner)) by {
                assert(multiplies_to(constants.cubic, v, first));
                assert(multiplies_to(first, v, second));
                assert(multiplies_to(second, v, third));
                assert(adds_to(v, third, sum));
            }
            let g = tanh(inner);
            gated(v, constants.half, constants.one, g)
        };
    crate::ops::elementwise::map(x, &f)
}

/// `0.5 * v * (1 + erf(v / sqrt(2)))` may come out as `r`.
pub open spec fn gelu_erf_gives<T: Add<Output = T> + Mul<Output = T>, F: Fn(T) -> T>(
    v: T,
    half: T,
    one: T,
    inv_sqrt2: T,
    erf: F,
    r: T,
) -> bool {
    exists|inner: T, g: T|
        #![trigger multiplies_to(v, inv_sqrt2, inner), gated_gives(v, half, one, g, r)]
        multiplies_to(v, inv_sqrt2, inner) && call_ensures(erf, (inner,), g) && gated_gives(
            v,
            half,
            one,
            g,
            r,
        )
}

/// Exact GELU: `0.5 * x * (1 + erf(x / sqrt(2)))`. `half`, `one` and `inv_sqrt2`
/// are one half, one and one over the square root of two.
///
/// This matches HuggingFace's default `"gelu"` for most BERT models. [`erf_approx`] is
/// close enough to the error function for it.
pub fn gelu_erf<T: Copy + Add<Output = T> + Mul<Output = T>, F: Fn(T) -> T>(
    x: &Tensor<T>,
    half: T,
    one: T,
    inv_sqrt2: T,
    erf: &F,
) -> (res: Tensor<T>)
    requires
        x.wf(),
        can_add::<T>(),
        can_multiply::<T>(),
        forall|v: T| #[trigger] call_requires(*erf, (v,)),
    ensures
        res.wf(),
        res.dims() == x.dims(),
        forall|i: int|
            0 <= i < res.elems().len() ==> gelu_erf_gives(
                x.elems()[i],
                half,
                one,
                inv_sqrt2,
                *erf,
                #[trigger] res.elems()[i],
            ),
{
    let f = |v: T| -> (r: T)
        ensures
            gelu_erf_gives(v, half, one, inv_sqrt2, *erf, r),
        {
            let inner = times(v, inv_sqrt2);
            assert(multiplies_to(v, inv_sqrt2, inner));
            let g = erf(inner);
            gated(v, half, one, g)
        };
    crate::ops::elementwise::map(x, &f)
}

// ---------------------------------------------------------------------------
// The error function
// ---------------------------------------------------------------------------

/// The polynomial with the given coefficients, the leading one first, may come
/// out at `t` as `r` when it is evaluated by Horner's rule.
pub open spec fn horner_gives<T: Add<Output = T> + Mul<Output = T>>(
    coefficients: Seq<T>,
    t: T,
    r: T,
) -> bool
    decreases coefficients.len(),
{
    if coefficients.len() <= 1 {
        r == coefficients[0]
    } else {
        exists|acc: T, product: T|
            #![trigger multiplies_to(acc, t, product)]
            horner_gives(coefficients.drop_last(), t, acc) && multiplies_to(acc, t, product)
                && adds_to(product, coefficients.last(), r)
    }
}

/// Evaluates a polynomial by Horner's rule.
fn horner<T: Copy + Add<Output = T> + Mul<Output = T>>(coefficients: &[T], t: T) -> (res: T)
    requires
        coefficients@.len() > 0,
        can_add::<T>(),
        can_multiply::<T>(),
    ensures
        horner_gives(coefficients@, t, res),
{
    let n: usize = coefficients.len();
    let mut acc: T = coefficients[0];
    let mut i: usize = 1;
    assert(horner_gives(coefficients@.take(1), t, acc));
    while i < n
        invariant
            1 <= i <= n,
            n == coefficients@.len(),
            can_add::<T>(),
            can_multiply::<T>(),
            horner_gives(coefficients@.take(i as int), t, acc),
        decreases n - i,
    {
        let ghost before = acc;
        let product = times(acc, t);
        acc = plus(product, coefficients[i]);
        i = i + 1;
        proof {
            assert(coefficients@.take(i as int).drop_last() =~= coefficients@.take(i - 1));
            assert(multiplies_to(before, t, product));
        }
    }
    assert(coefficients@.take(n as int) =~= coefficients@);
    acc
}

/// The constants of the approximation of the error function.
pub struct ErfConstants<'a, T> {
    /// One.
    pub one: T,
    /// The factor in the argument of the polynomial.
    pub p: T,
    /// The coefficients of the polynomial without its constant term, which is
    /// zero; the leading one first.
    pub coefficients: &'a [T],
}

/// What the approximation computes on the way.
pub struct ErfParts<T> {
    /// Zero.
    pub zero: T,
    /// Whether the argument is negative.
    pub negative: bool,
    /// Minus one.
    pub minus_one: T,
    /// The magnitude of the argument.
    pub x: T,
    /// The magnitude times `p`.
    pub px: T,
    /// One more than that.
    pub below: T,
    /// Where the polynomial is evaluated.
    pub t: T,
    /// The polynomial without its last factor.
    pub poly: T,
    /// The polynomial.
    pub poly_t: T,
    /// The negated magnitude.
    pub minus_x: T,
    /// The negated square.
    pub minus_square: T,
    /// Its exponential.
    pub e: T,
    /// What is missing to one.
    pub rest: T,
    /// The result for the magnitude.
    pub y: T,
}

/// The approximation at `v` is `r`, by way of `parts`.
pub open spec fn erf_by<
    T: PartialOrd + Default + Add<Output = T> + Sub<Output = T> + Mul<Output = T> + Div<
        Output = T,
    > + Neg<Output = T>,
    E: Fn(T) -> T,
    B: Fn(T) -> T,
>(v: T, constants: ErfConstants<'_, T>, exp: E, abs: B, parts: ErfParts<T>, r: T) -> bool {
    &&& is_zero(parts.zero)
    &&& is_less(v, parts.zero, parts.negative)
    &&& negates_to(constants.one, parts.minus_one)
    &&& call_ensures(abs, (v,), parts.x)
    &&& multiplies_to(constants.p, parts.x, parts.px)
    &&& adds_to(constants.one, parts.px, parts.below)
    &&& divides_to(constants.one, parts.below, parts.t)
    &&& horner_gives(constants.coefficients@, parts.t, parts.poly)
    &&& multiplies_to(parts.poly, parts.t, parts.poly_t)
    &&& negates_to(parts.x, parts.minus_x)
    &&& multiplies_to(parts.minus_x, parts.x, parts.minus_square)
    &&& call_ensures(exp, (parts.minus_square,), parts.e)
    &&& multiplies_to(parts.poly_t, parts.e, parts.rest)
    &&& subtracts_to(constants.one, parts.rest, parts.y)
    &&& multiplies_to(
        if parts.negative {
            parts.minus_one
        } else {
            constants.one
        },
        parts.y,
        r,
    )
}

/// The approximation of the error function at `v` may come out as `r`:
/// `1 - poly(t) * exp(-x * x)` with `t = 1 / (1 + p * x)` for the magnitude `x`
/// of `v`, with the sign of `v`.
pub open spec fn erf_gives<
    T: PartialOrd + Default + Add<Output = T> + Sub<Output = T> + Mul<Output = T> + Div<
        Output = T,
    > + Neg<Output = T>,
    E: Fn(T) -> T,
    B: Fn(T) -> T,
>(v: T, constants: ErfConstants<'_, T>, exp: E, abs: B, r: T) -> bool {
    exists|parts: ErfParts<T>| #[trigger] erf_by(v, constants, exp, abs, parts, r)
}

/// Polynomial approximation of the error function (Abramowitz & Stegun 7.1.26).
/// `exp` is the exponential function and `abs` the magnitude of an element.
pub fn erf_approx<
    T: Copy + PartialOrd + Default + Add<Output = T> + Sub<Output = T> + Mul<Output = T> + Div<
        Output = T,
    > + Neg<Output = T>,
    E: Fn(T) -> T,
    B: Fn(T) -> T,
>(v: T, constants: &ErfConstants<'_, T>, exp: &E, abs: &B) -> (res: T)
    requires
        constants.coefficients@.len() > 0,
        can_order::<T>(),
        can_add::<T>(),
        can_subtract::<T>(),
        can_multiply::<T>(),
        can_divide::<T>(),
        can_negate::<T>(),
        forall|x: T| #[trigger] call_requires(*exp, (x,)),
        forall|x: T| #[trigger] call_requires(*abs, (x,)),
    ensures
        erf_gives(v, *constants, *exp, *abs, res),
{
    let one: T = constants.one;
    let zero = T::default();
    let below_zero: bool = less(v, zero);
    let minus_one = negative(one);
    let sign: T = if below_zero {
        minus_one
    } else {
        one
    };
    let x = abs(v);
    let px = times(constants.p, x);
    let below = plus(one, px);
    let t = over(one, below);
    let poly = horner(constants.coefficients, t);
    let poly_t = times(poly, t);
    let minus_x = negative(x);
    let minus_square = times(minus_x, x);
    let e = exp(minus_square);
    let rest = times(poly_t, e);
    let y = minus(one, rest);
    let res = times(sign, y);
    proof {
        let parts = ErfParts {
            zero,
            negative: below_zero,
            minus_one,
            x,
            px,
            below,
            t,
            poly,
            poly_t,
            minus_x,
            minus_square,
            e,
            rest,
            y,
        };
        assert(erf_by(v, *constants, *exp, *abs, parts, res));
    }
    res
}

} // verus!
