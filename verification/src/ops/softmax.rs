//! Softmax along the last dimension.
//!
//! Uses the standard numerically stable algorithm: subtract the row maximum
//! before exponentiating, so that no exponential overflows.

use vstd::prelude::*;
use core::ops::{Add, Mul, Sub};
use crate::num::{
    can_add, can_multiply, can_order, can_subtract, greater, is_greater, is_zero, lemma_sum_step,
    minus, multiplies_to, plus, row_of, subtracts_to, sum_gives, times,
};
use crate::ops::rows::{map_rows, row_becomes, row_count};
use crate::tensor::Tensor;

verus! {

/// A softmax of one row: it can be called with any row, and gives a row of the
/// same length.
pub open spec fn is_row_softmax<T, S: Fn(&[T]) -> Vec<T>>(softmax: S) -> bool {
    &&& forall|row: &[T]| #[trigger] call_requires(softmax, (row,))
    &&& forall|row: &[T], out: Vec<T>|
        #[trigger] call_ensures(softmax, (row,), out) ==> out@.len() == row@.len()
}

/// Each of the rows of `out` is what `softmax` may make of the row of `x`.
pub open spec fn is_softmax<T, S: Fn(&[T]) -> Vec<T>>(
    out: Seq<T>,
    x: Seq<T>,
    rows: int,
    cols: int,
    softmax: S,
) -> bool {
    &&& out.len() == x.len()
    &&& forall|r: int|
        0 <= r < rows ==> row_becomes(softmax, row_of(x, cols, r), #[trigger] row_of(out, cols, r))
}

/// The greatest of `lowest` and the elements of `x` may come out as `r`: an
/// element takes the place of the greatest so far if it is greater.
pub open spec fn max_gives<T: PartialOrd>(lowest: T, x: Seq<T>, r: T) -> bool
    decreases x.len(),
{
    if x.len() == 0 {
        r == lowest
    } else {
        exists|max: T, takes: bool|
            #![trigger is_greater(x.last(), max, takes)]
            max_gives(lowest, x.drop_last(), max) && is_greater(x.last(), max, takes) && r
                == if takes {
                x.last()
            } else {
                max
            }
    }
}

/// The exponential of `v - max` may come out as `e`.
pub open spec fn shifted_exp_gives<T: Sub<Output = T>, E: Fn(T) -> T>(
    exp: E,
    v: T,
    max: T,
    e: T,
) -> bool {
    exists|d: T| #[trigger] subtracts_to(v, max, d) && call_ensures(exp, (d,), e)
}

/// What softmax computes on the way.
pub struct SoftmaxParts<T> {
    /// The maximum.
    pub max: T,
    /// The exponentials.
    pub exps: Seq<T>,
    /// Where their sum starts.
    pub zero: T,
    /// Their sum.
    pub sum: T,
    /// Whether the sum is positive.
    pub positive: bool,
    /// What the exponentials are multiplied by.
    pub factor: T,
}

/// `y` is the softmax of the row `x`, by way of `parts`: the exponentials of the
/// elements less their maximum, divided by the sum of all of them. Where that
/// sum is not positive, they are multiplied by zero.
pub open spec fn softmax_by<
    T: PartialOrd + Default + Add<Output = T> + Sub<Output = T> + Mul<Output = T>,
    E: Fn(T) -> T,
    R: Fn(T) -> T,
>(x: Seq<T>, lowest: T, exp: E, reciprocal: R, parts: SoftmaxParts<T>, y: Seq<T>) -> bool {
    &&& is_zero(parts.zero)
    &&& max_gives(lowest, x, parts.max)
    &&& parts.exps.len() == x.len()
    &&& forall|i: int|
        0 <= i < x.len() ==> shifted_exp_gives(exp, x[i], parts.max, #[trigger] parts.exps[i])
    &&& sum_gives(parts.zero, parts.exps, parts.sum)
    &&& is_greater(parts.sum, parts.zero, parts.positive)
    &&& if parts.positive {
        call_ensures(reciprocal, (parts.sum,), parts.factor)
    } else {
        parts.factor == parts.zero
    }
    &&& y.len() == x.len()
    &&& forall|i: int|
        0 <= i < x.len() ==> multiplies_to(parts.exps[i], parts.factor, #[trigger] y[i])
}

/// The softmax of the row `x` may come out as `y`.
pub open spec fn softmax_gives<
    T: PartialOrd + Default + Add<Output = T> + Sub<Output = T> + Mul<Output = T>,
    E: Fn(T) -> T,
    R: Fn(T) -> T,
>(x: Seq<T>, lowest: T, exp: E, reciprocal: R, y: Seq<T>) -> bool {
    exists|parts: SoftmaxParts<T>| #[trigger] softmax_by(x, lowest, exp, reciprocal, parts, y)
}

/// Softmax of one row. `lowest` is less than every element, `exp` the
/// exponential function and `reciprocal` one over an element.
pub fn softmax_row<
    T: Copy + PartialOrd + Default + Add<Output = T> + Sub<Output = T> + Mul<Output = T>,
    E: Fn(T) -> T,
    R: Fn(T) -> T,
>(row: &[T], lowest: T, exp: &E, reciprocal: &R) -> (res: Vec<T>)
    requires
        can_order::<T>(),
        can_add::<T>(),
        can_subtract::<T>(),
        can_multiply::<T>(),
        forall|v: T| #[trigger] call_requires(*exp, (v,)),
        forall|v: T| #[trigger] call_requires(*reciprocal, (v,)),
    ensures
        softmax_gives(row@, lowest, *exp, *reciprocal, res@),
{
    let n: usize = row.len();
    let mut max: T = lowest;
    let mut i: usize = 0;
    assert(max_gives(lowest, row@.take(0), max));
    while i < n
        invariant
            i <= n,
            n == row@.len(),
            can_order::<T>(),
            max_gives(lowest, row@.take(i as int), max),
        decreases n - i,
    {
        let ghost before = max;
        let takes: bool = greater(row[i], max);
        if takes {
            max = row[i];
        }
        i = i + 1;
        proof {
            assert(row@.take(i as int).drop_last() =~= row@.take(i - 1));
            assert(is_greater(row@.take(i as int).last(), before, takes));
        }
    }
    assert(row@.take(n as int) =~= row@);
    let zero = T::default();
    let mut exps: Vec<T> = Vec::new();
    let mut sum: T = zero;
    i = 0;
    while i < n
        invariant
            i <= n,
            n == row@.len(),
            can_add::<T>(),
            can_subtract::<T>(),
            forall|v: T| #[trigger] call_requires(*exp, (v,)),
            exps@.len() == i,
            forall|k: int|
                0 <= k < i ==> shifted_exp_gives(*exp, row@[k], max, #[trigger] exps@[k]),
            sum_gives(zero, exps@, sum),
        decreases n - i,
    {
        let ghost so_far = exps@;
        let ghost before = sum;
        let d = minus(row[i], max);
        let e = exp(d);
        assert(shifted_exp_gives(*exp, row@[i as int], max, e)) by {
            assert(subtracts_to(row@[i as int], max, d));
        }
        exps.push(e);
        sum = plus(sum, e);
        proof {
            lemma_sum_step(zero, so_far, before, e, sum);
        }
        i = i + 1;
    }
    let positive: bool = greater(sum, zero);
    let factor: T = if positive {
        reciprocal(sum)
    } else {
        zero
    };
    let mut out: Vec<T> = Vec::new();
    i = 0;
    while i < n
        invariant
            i <= n,
            n == exps@.len(),
            can_multiply::<T>(),
            out@.len() == i,
            forall|k: int| 0 <= k < i ==> multiplies_to(exps@[k], factor, #[trigger] out@[k]),
        decreases n - i,
    {
        out.push(times(exps[i], factor));
        i = i + 1;
    }
    proof {
        let parts = SoftmaxParts { max, exps: exps@, zero, sum, positive, factor };
        assert(softmax_by(row@, lowest, *exp, *reciprocal, parts, out@));
    }
    out
}

/// Applies a softmax of one row along the last dimension of `x`.
///
/// Output has the same shape as input.
pub fn softmax_rows<T: Copy, S: Fn(&[T]) -> Vec<T>>(x: &Tensor<T>, softmax: &S) -> (res: Tensor<T>)
    requires
        x.wf(),
        x.dims().len() > 0,
        x.dims().last() > 0,
        is_row_softmax(*softmax),
    ensures
        res.wf(),
        res.dims() == x.dims(),
        is_softmax(
            res.elems(),
            x.elems(),
            row_count(x.dims()) as int,
            x.dims().last() as int,
            *softmax,
        ),
{
    map_rows(x, softmax)
}

/// Computes softmax along the last dimension of `x`. `lowest` is less than
/// every element, `exp` the exponential function and `reciprocal` one over an
/// element.
///
/// Output has the same shape as input.
pub fn softmax_last_dim<
    T: Copy + PartialOrd + Default + Add<Output = T> + Sub<Output = T> + Mul<Output = T>,
    E: Fn(T) -> T,
    R: Fn(T) -> T,
>(x: &Tensor<T>, lowest: T, exp: &E, reciprocal: &R) -> (res: Tensor<T>)
    requires
        x.wf(),
        x.dims().len() > 0,
        x.dims().last() > 0,
        can_order::<T>(),
        can_add::<T>(),
        can_subtract::<T>(),
        can_multiply::<T>(),
        forall|v: T| #[trigger] call_requires(*exp, (v,)),
        forall|v: T| #[trigger] call_requires(*reciprocal, (v,)),
    ensures
        res.wf(),
        res.dims() == x.dims(),
        forall|r: int|
            0 <= r < row_count(x.dims()) ==> softmax_gives(
                row_of(x.elems(), x.dims().last() as int, r),
                lowest,
                *exp,
                *reciprocal,
                #[trigger] row_of(res.elems(), x.dims().last() as int, r),
            ),
{
    let softmax = |row: &[T]| -> (out: Vec<T>)
        ensures
            softmax_gives(row@, lowest, *exp, *reciprocal, out@),
        { softmax_row(row, lowest, exp, reciprocal) };
    let res = softmax_rows(x, &softmax);
    proof {
        let n = x.dims().last() as int;
        assert forall|r: int| 0 <= r < row_count(x.dims()) implies softmax_gives(
            row_of(x.elems(), n, r),
            lowest,
            *exp,
            *reciprocal,
            #[trigger] row_of(res.elems(), n, r),
        ) by {
            assert(row_becomes(softmax, row_of(x.elems(), n, r), row_of(res.elems(), n, r)));
        }
    }
    res
}

} // verus!
