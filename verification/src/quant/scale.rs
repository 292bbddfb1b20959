//! Scales and zero points of the rows of a matrix.

use vstd::prelude::*;
use core::ops::{Div, Neg, Sub};
use crate::num::{
    can_divide, can_equate, can_negate, can_order, can_subtract, divides_to, equal, greater,
    is_equal, is_greater, is_less, is_zero, less, minus, negates_to, negative, over, subtracts_to,
};
use crate::ops::softmax::max_gives;

verus! {

/// The greatest magnitude in `x`, not below `zero`, may come out as `r`.
pub open spec fn magnitude_gives<T: PartialOrd, B: Fn(T) -> T>(
    zero: T,
    x: Seq<T>,
    abs: B,
    r: T,
) -> bool
    decreases x.len(),
{
    if x.len() == 0 {
        r == zero
    } else {
        exists|max: T, m: T, takes: bool|
            #![trigger is_greater(m, max, takes)]
            magnitude_gives(zero, x.drop_last(), abs, max) && call_ensures(abs, (x.last(),), m)
                && is_greater(m, max, takes) && r == if takes {
                m
            } else {
                max
            }
    }
}

/// The least of `highest` and the elements of `x` may come out as `r`: an element
/// takes the place of the least so far if it is less.
pub open spec fn min_gives<T: PartialOrd>(highest: T, x: Seq<T>, r: T) -> bool
    decreases x.len(),
{
    if x.len() == 0 {
        r == highest
    } else {
        exists|min: T, takes: bool|
            #![trigger is_less(x.last(), min, takes)]
            min_gives(highest, x.drop_last(), min) && is_less(x.last(), min, takes) && r
                == if takes {
                x.last()
            } else {
                min
            }
    }
}

/// The scale of a row with the greatest magnitude `max_abs` may come out as
/// `scale`: one over the number of levels of it, and one for a row of zeros.
pub open spec fn symmetric_scale_gives<T: PartialEq + Div<Output = T>>(
    max_abs: T,
    zero: T,
    one: T,
    levels: T,
    scale: T,
) -> bool {
    exists|flat: bool|
        #[trigger] is_equal(max_abs, zero, flat) && if flat {
            scale == one
        } else {
            divides_to(max_abs, levels, scale)
        }
}

/// The scale of a row that is quantized symmetrically, with `levels` levels on
/// each side of zero. `one` is the element one, `abs` the magnitude of an
/// element.
pub fn symmetric_scale<
    T: Copy + Default + PartialOrd + Div<Output = T>,
    B: Fn(T) -> T,
>(row: &[T], one: T, levels: T, abs: &B) -> (res: T)
    requires
        can_order::<T>(),
        can_equate::<T>(),
        can_divide::<T>(),
        forall|v: T| #[trigger] call_requires(*abs, (v,)),
    ensures
        exists|zero: T, max_abs: T|
            #![trigger magnitude_gives(zero, row@, *abs, max_abs)]
            is_zero(zero) && magnitude_gives(zero, row@, *abs, max_abs) && symmetric_scale_gives(
                max_abs,
                zero,
                one,
                levels,
                res,
            ),
{
    let n: usize = row.len();
    let zero = T::default();
    let mut max_abs: T = zero;
    let mut i: usize = 0;
    assert(magnitude_gives(zero, row@.take(0), *abs, max_abs));
    while i < n
        invariant
            i <= n,
            n == row@.len(),
            can_order::<T>(),
            forall|v: T| #[trigger] call_requires(*abs, (v,)),
            magnitude_gives(zero, row@.take(i as int), *abs, max_abs),
        decreases n - i,
    {
        let ghost before = max_abs;
        let m = abs(row[i]);
        let takes: bool = greater(m, max_abs);
        if takes {
            max_abs = m;
        }
        i = i + 1;
        proof {
            assert(row@.take(i as int).drop_last() =~= row@.take(i - 1));
            assert(is_greater(m, before, takes));
        }
    }
    assert(row@.take(n as int) =~= row@);
    let flat: bool = equal(max_abs, zero);
    assert(is_equal(max_abs, zero, flat));
    let res: T = if flat {
        one
    } else {
        over(max_abs, levels)
    };
    assert(symmetric_scale_gives(max_abs, zero, one, levels, res));
    res
}

/// Scale and zero point of a row between `min` and `max` may come out as `scale`
/// and `zero_point`: the range over the number of levels, and one for a row
/// without a range; the zero point is where `min` comes to lie at zero.
pub open spec fn affine_params_give<
    T: PartialEq + Sub<Output = T> + Div<Output = T> + Neg<Output = T>,
    Z: Fn(T) -> u8,
>(min: T, max: T, one: T, levels: T, to_u8: Z, scale: T, zero_point: u8) -> bool {
    exists|flat: bool, range: T, negated: T, shift: T|
        #![trigger is_equal(max, min, flat), subtracts_to(max, min, range), negates_to(min,
            negated), divides_to(negated, scale, shift)]
        is_equal(max, min, flat) && subtracts_to(max, min, range) && (if flat {
            scale == one
        } else {
            divides_to(range, levels, scale)
        }) && negates_to(min, negated) && divides_to(negated, scale, shift) && call_ensures(
            to_u8,
            (shift,),
            zero_point,
        )
}

/// Scale and zero point of a row that is quantized to `levels` steps. `one` is
/// the element one, no element lies outside `lowest` and `highest`, and `to_u8`
/// rounds an element into a byte.
pub fn affine_params<
    T: Copy + PartialOrd + Sub<Output = T> + Div<Output = T> + Neg<Output = T>,
    Z: Fn(T) -> u8,
>(row: &[T], one: T, levels: T, lowest: T, highest: T, to_u8: &Z) -> (res: (T, u8))
    requires
        can_order::<T>(),
        can_equate::<T>(),
        can_subtract::<T>(),
        can_divide::<T>(),
        can_negate::<T>(),
        forall|v: T| #[trigger] call_requires(*to_u8, (v,)),
    ensures
        exists|min: T, max: T|
            #![trigger min_gives(highest, row@, min), max_gives(lowest, row@, max)]
            min_gives(highest, row@, min) && max_gives(lowest, row@, max) && affine_params_give(
                min,
                max,
                one,
                levels,
                *to_u8,
                res.0,
                res.1,
            ),
{
    let n: usize = row.len();
    let mut min: T = highest;
    let mut max: T = lowest;
    let mut i: usize = 0;
    assert(min_gives(highest, row@.take(0), min));
    assert(max_gives(lowest, row@.take(0), max));
    while i < n
        invariant
            i <= n,
            n == row@.len(),
            can_order::<T>(),
            min_gives(highest, row@.take(i as int), min),
            max_gives(lowest, row@.take(i as int), max),
        decreases n - i,
    {
        let ghost min0 = min;
        let ghost max0 = max;
        let v: T = row[i];
        let lower: bool = less(v, min);
        if lower {
            min = v;
        }
        let higher: bool = greater(v, max);
        if higher {
            max = v;
        }
        i = i + 1;
        proof {
            let x = row@.take(i as int);
            assert(x.drop_last() =~= row@.take(i - 1));
            assert(is_less(x.last(), min0, lower));
            assert(is_greater(x.last(), max0, higher));
        }
    }
    assert(row@.take(n as int) =~= row@);
    let flat: bool = equal(max, min);
    let range = minus(max, min);
    let scale: T = if flat {
        one
    } else {
        over(range, levels)
    };
    let negated = negative(min);
    let shift = over(negated, scale);
    let zero_point: u8 = to_u8(shift);
    proof {
        assert(is_equal(max, min, flat) && subtracts_to(max, min, range) && negates_to(min, negated)
            && divides_to(negated, scale, shift));
        assert(affine_params_give(min, max, one, levels, *to_u8, scale, zero_point));
    }
    (scale, zero_point)
}

} // verus!
