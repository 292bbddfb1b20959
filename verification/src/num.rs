//! Arithmetic on elements of any type, as relations.
//!
//! The tensor operations are written for every element type that has the
//! arithmetic they use. What an operation of the element type gives is what the
//! element type says; the relations here speak of it.

use vstd::prelude::*;
use core::ops::{Add, Div, Mul, Neg, Sub};

verus! {

/// `a + b` may come out as `r`.
pub open spec fn adds_to<T: Add<Output = T>>(a: T, b: T, r: T) -> bool {
    call_ensures(<T as Add>::add, (a, b), r)
}

/// `a - b` may come out as `r`.
pub open spec fn subtracts_to<T: Sub<Output = T>>(a: T, b: T, r: T) -> bool {
    call_ensures(<T as Sub>::sub, (a, b), r)
}

/// `a * b` may come out as `r`.
pub open spec fn multiplies_to<T: Mul<Output = T>>(a: T, b: T, r: T) -> bool {
    call_ensures(<T as Mul>::mul, (a, b), r)
}

/// `a / b` may come out as `r`.
pub open spec fn divides_to<T: Div<Output = T>>(a: T, b: T, r: T) -> bool {
    call_ensures(<T as Div>::div, (a, b), r)
}

/// `-a` may come out as `r`.
pub open spec fn negates_to<T: Neg<Output = T>>(a: T, r: T) -> bool {
    call_ensures(<T as Neg>::neg, (a,), r)
}

/// Whether `a > b` may come out as `greater`.
pub open spec fn is_greater<T: PartialOrd>(a: T, b: T, greater: bool) -> bool {
    call_ensures(<T as PartialOrd>::gt, (&a, &b), greater)
}

/// Whether `a < b` may come out as `less`.
pub open spec fn is_less<T: PartialOrd>(a: T, b: T, less: bool) -> bool {
    call_ensures(<T as PartialOrd>::lt, (&a, &b), less)
}

/// Whether `a == b` may come out as `equal`.
pub open spec fn is_equal<T: PartialEq>(a: T, b: T, equal: bool) -> bool {
    call_ensures(<T as PartialEq>::eq, (&a, &b), equal)
}

/// Any two elements may be added.
pub open spec fn can_add<T: Add<Output = T>>() -> bool {
    forall|a: T, b: T| #[trigger] call_requires(<T as Add>::add, (a, b))
}

/// Any two elements may be subtracted.
pub open spec fn can_subtract<T: Sub<Output = T>>() -> bool {
    forall|a: T, b: T| #[trigger] call_requires(<T as Sub>::sub, (a, b))
}

/// Any two elements may be multiplied.
pub open spec fn can_multiply<T: Mul<Output = T>>() -> bool {
    forall|a: T, b: T| #[trigger] call_requires(<T as Mul>::mul, (a, b))
}

/// Any two elements may be divided.
pub open spec fn can_divide<T: Div<Output = T>>() -> bool {
    forall|a: T, b: T| #[trigger] call_requires(<T as Div>::div, (a, b))
}

/// Any element may be negated.
pub open spec fn can_negate<T: Neg<Output = T>>() -> bool {
    forall|a: T| #[trigger] call_requires(<T as Neg>::neg, (a,))
}

/// Any two elements may be compared.
pub open spec fn can_order<T: PartialOrd>() -> bool {
    &&& forall|a: &T, b: &T| #[trigger] call_requires(<T as PartialOrd>::gt, (a, b))
    &&& forall|a: &T, b: &T| #[trigger] call_requires(<T as PartialOrd>::lt, (a, b))
}

/// Any two elements may be tested for equality.
pub open spec fn can_equate<T: PartialEq>() -> bool {
    forall|a: &T, b: &T| #[trigger] call_requires(<T as PartialEq>::eq, (a, b))
}

/// `zero` is an element that the type gives as its default.
pub open spec fn is_zero<T: Default>(zero: T) -> bool {
    call_ensures(T::default, (), zero)
}

/// Adding the products of `x` and `y`, from left to right, to `start` may come
/// out as `r`.
pub open spec fn dot_gives<T: Add<Output = T> + Mul<Output = T>>(
    start: T,
    x: Seq<T>,
    y: Seq<T>,
    r: T,
) -> bool
    decreases x.len(),
{
    if x.len() == 0 {
        r == start
    } else {
        exists|sum: T, term: T|
            #![trigger adds_to(sum, term, r)]
            dot_gives(start, x.drop_last(), y.drop_last(), sum) && multiplies_to(
                x.last(),
                y.last(),
                term,
            ) && adds_to(sum, term, r)
    }
}

/// Adding the elements of `x`, from left to right, to `start` may come out as
/// `r`.
pub open spec fn sum_gives<T: Add<Output = T>>(start: T, x: Seq<T>, r: T) -> bool
    decreases x.len(),
{
    if x.len() == 0 {
        r == start
    } else {
        exists|sum: T|
            #![trigger adds_to(sum, x.last(), r)]
            sum_gives(start, x.drop_last(), sum) && adds_to(sum, x.last(), r)
    }
}

/// Adding `n` terms, of which number `i` may be any that `term` allows, from
/// left to right to `start` may come out as `r`.
pub open spec fn series_gives<T: Add<Output = T>>(
    start: T,
    term: spec_fn(int, T) -> bool,
    n: nat,
    r: T,
) -> bool
    decreases n,
{
    if n == 0 {
        r == start
    } else {
        exists|sum: T, t: T|
            #![trigger adds_to(sum, t, r)]
            series_gives(start, term, (n - 1) as nat, sum) && term(n - 1, t) && adds_to(sum, t, r)
    }
}

/// One more product.
pub proof fn lemma_dot_step<T: Add<Output = T> + Mul<Output = T>>(
    start: T,
    x: Seq<T>,
    y: Seq<T>,
    k: int,
    sum: T,
    term: T,
    r: T,
)
    requires
        0 <= k < x.len(),
        x.len() == y.len(),
        dot_gives(start, x.take(k), y.take(k), sum),
        multiplies_to(x[k], y[k], term),
        adds_to(sum, term, r),
    ensures
        dot_gives(start, x.take(k + 1), y.take(k + 1), r),
{
    assert(x.take(k + 1).drop_last() =~= x.take(k));
    assert(y.take(k + 1).drop_last() =~= y.take(k));
}

/// One more element.
pub proof fn lemma_sum_step<T: Add<Output = T>>(start: T, x: Seq<T>, sum: T, e: T, r: T)
    requires
        sum_gives(start, x, sum),
        adds_to(sum, e, r),
    ensures
        sum_gives(start, x.push(e), r),
{
    assert(x.push(e).drop_last() =~= x);
    assert(x.push(e).last() == e);
}

/// `a + b`.
pub fn plus<T: Add<Output = T>>(a: T, b: T) -> (res: T)
    requires
        can_add::<T>(),
    ensures
        adds_to(a, b, res),
{
    assert(call_requires(<T as Add>::add, (a, b)));
    a + b
}

/// `a - b`.
pub fn minus<T: Sub<Output = T>>(a: T, b: T) -> (res: T)
    requires
        can_subtract::<T>(),
    ensures
        subtracts_to(a, b, res),
{
    assert(call_requires(<T as Sub>::sub, (a, b)));
    a - b
}

/// `a * b`.
pub fn times<T: Mul<Output = T>>(a: T, b: T) -> (res: T)
    requires
        can_multiply::<T>(),
    ensures
        multiplies_to(a, b, res),
{
    assert(call_requires(<T as Mul>::mul, (a, b)));
    a * b
}

/// `a / b`.
pub fn over<T: Div<Output = T>>(a: T, b: T) -> (res: T)
    requires
        can_divide::<T>(),
    ensures
        divides_to(a, b, res),
{
    assert(call_requires(<T as Div>::div, (a, b)));
    a / b
}

/// `-a`.
pub fn negative<T: Neg<Output = T>>(a: T) -> (res: T)
    requires
        can_negate::<T>(),
    ensures
        negates_to(a, res),
{
    assert(call_requires(<T as Neg>::neg, (a,)));
    a.neg()
}

/// `a > b`.
pub fn greater<T: Copy + PartialOrd>(a: T, b: T) -> (res: bool)
    requires
        can_order::<T>(),
    ensures
        is_greater(a, b, res),
{
    assert(call_requires(<T as PartialOrd>::gt, (&a, &b)));
    a > b
}

/// `a < b`.
pub fn less<T: Copy + PartialOrd>(a: T, b: T) -> (res: bool)
    requires
        can_order::<T>(),
    ensures
        is_less(a, b, res),
{
    assert(call_requires(<T as PartialOrd>::lt, (&a, &b)));
    a < b
}

/// `a == b`.
pub fn equal<T: Copy + PartialEq>(a: T, b: T) -> (res: bool)
    requires
        can_equate::<T>(),
    ensures
        is_equal(a, b, res),
{
    assert(call_requires(<T as PartialEq>::eq, (&a, &b)));
    a == b
}

// ---------------------------------------------------------------------------
// Row-major matrices
// ---------------------------------------------------------------------------

/// Element in row `i` and column `j` of a row-major matrix with `cols` columns.
pub open spec fn cell<T>(elems: Seq<T>, cols: int, i: int, j: int) -> T {
    elems[i * cols + j]
}

/// Row `i` of a row-major matrix with `cols` columns.
pub open spec fn row_of<T>(elems: Seq<T>, cols: int, i: int) -> Seq<T> {
    elems.subrange(i * cols, (i + 1) * cols)
}

/// Column `j` of a row-major matrix with `rows` rows and `cols` columns.
pub open spec fn column_of<T>(elems: Seq<T>, rows: int, cols: int, j: int) -> Seq<T> {
    Seq::new(rows as nat, |i: int| cell(elems, cols, i, j))
}

/// The bounds of a row lie inside the matrix.
pub proof fn lemma_row_bounds(i: int, rows: int, cols: int)
    requires
        0 <= i < rows,
        0 <= cols,
    ensures
        0 <= i * cols,
        i * cols + cols == (i + 1) * cols,
        (i + 1) * cols <= rows * cols,
{
    assert(0 <= i * cols && i * cols + cols == (i + 1) * cols && (i + 1) * cols <= rows * cols)
        by (nonlinear_arith)
        requires
            0 <= i < rows,
            0 <= cols,
    ;
}

/// The row and the column of an element.
pub proof fn lemma_cell_index(i: int, j: int, rows: int, cols: int)
    requires
        0 <= i < rows,
        0 <= j < cols,
    ensures
        0 <= i * cols + j < rows * cols,
        (i * cols + j) / cols == i,
        (i * cols + j) % cols == j,
{
    lemma_row_bounds(i, rows, cols);
    vstd::arithmetic::div_mod::lemma_fundamental_div_mod_converse(i * cols + j, cols, i, j);
}

/// An element of a matrix lies in a row and a column of the matrix.
pub proof fn lemma_row_of_index(index: int, rows: int, cols: int)
    requires
        0 <= index < rows * cols,
        0 <= rows,
        0 <= cols,
    ensures
        cols > 0,
        0 <= index / cols < rows,
        0 <= index % cols < cols,
        index == (index / cols) * cols + index % cols,
{
    assert(cols > 0) by (nonlinear_arith)
        requires
            0 <= index < rows * cols,
            0 <= cols,
    ;
    assert(0 <= index / cols < rows && 0 <= index % cols < cols && index == (index / cols) * cols
        + index % cols) by (nonlinear_arith)
        requires
            0 <= index < rows * cols,
            cols > 0,
    ;
}

} // verus!
