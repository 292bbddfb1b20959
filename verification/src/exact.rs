//! Element types that compute without rounding, and what the operations on
//! tensors amount to there: sums and products of integers.

use vstd::prelude::*;
use core::ops::{Add, Mul};
use crate::models::forward::{
    is_elementwise_product, is_linear, is_lookup, is_mapped, is_sum,
};
use crate::num::{
    adds_to, cell, column_of, dot_gives, is_zero, lemma_cell_index, lemma_row_bounds,
    lemma_row_of_index, multiplies_to, row_of, series_gives, sum_gives,
};
use crate::ops::layernorm::{is_layer_norm, row_normalizes};
use crate::ops::linear::with_bias;
use crate::ops::matmul::{is_product, is_product_t, product_gives, product_t_gives};
use crate::ops::rms_norm::{is_rms_norm, row_scales};
use crate::ops::rows::row_count;
use crate::tensor::{Tensor, lemma_product_1, lemma_product_2};

verus! {

/// Every element stands for one integer, its value. Sums and products of
/// elements have the sums and products of the values, and the default element
/// has the value zero.
pub open spec fn is_exact<T: Default + Add<Output = T> + Mul<Output = T>>(
    value: spec_fn(T) -> int,
) -> bool {
    &&& forall|a: T, b: T, r: T| #[trigger] adds_to(a, b, r) ==> value(r) == value(a) + value(b)
    &&& forall|a: T, b: T, r: T| #[trigger]
        multiplies_to(a, b, r) ==> value(r) == value(a) * value(b)
    &&& forall|zero: T| #[trigger] is_zero(zero) ==> value(zero) == 0
    &&& forall|a: T, b: T| #[trigger] value(a) == #[trigger] value(b) ==> a == b
}

/// The sum of `f(0)`, `f(1)`, ..., `f(n - 1)`.
pub open spec fn total(f: spec_fn(int) -> int, n: int) -> int
    decreases n,
{
    if n <= 0 {
        0
    } else {
        total(f, n - 1) + f(n - 1)
    }
}

/// Equal terms have equal sums.
pub proof fn lemma_total_eq(f: spec_fn(int) -> int, g: spec_fn(int) -> int, n: int)
    requires
        forall|i: int| 0 <= i < n ==> #[trigger] f(i) == g(i),
    ensures
        total(f, n) == total(g, n),
    decreases n,
{
    if n > 0 {
        lemma_total_eq(f, g, n - 1);
        assert(f(n - 1) == g(n - 1));
    }
}

/// A sum of zeros is zero.
pub proof fn lemma_total_zero(f: spec_fn(int) -> int, n: int)
    requires
        forall|i: int| 0 <= i < n ==> #[trigger] f(i) == 0,
    ensures
        total(f, n) == 0,
    decreases n,
{
    if n > 0 {
        lemma_total_zero(f, n - 1);
        assert(f(n - 1) == 0);
    }
}

/// The value of the element in row `i` and column `j`.
pub open spec fn at<T>(value: spec_fn(T) -> int, x: Tensor<T>, i: int, j: int) -> int {
    value(x.elems()[i * x.dims()[1] + j])
}

/// A row of a matrix, times row `o` of a weight.
pub open spec fn weighted<T>(
    value: spec_fn(T) -> int,
    x: Tensor<T>,
    i: int,
    weight: Tensor<T>,
    o: int,
) -> int {
    total(|l: int| at(value, x, i, l) * at(value, weight, o, l), weight.dims()[1] as int)
}

pub proof fn lemma_dot<T: Default + Add<Output = T> + Mul<Output = T>>(
    value: spec_fn(T) -> int,
    start: T,
    x: Seq<T>,
    y: Seq<T>,
    r: T,
)
    requires
        is_exact(value),
        x.len() == y.len(),
        dot_gives(start, x, y, r),
    ensures
        value(r) == value(start) + total(|k: int| value(x[k]) * value(y[k]), x.len() as int),
    decreases x.len(),
{
    let f = |k: int| value(x[k]) * value(y[k]);
    if x.len() > 0 {
        let (x1, y1) = (x.drop_last(), y.drop_last());
        let g = |k: int| value(x1[k]) * value(y1[k]);
        let (sum, term) = choose|sum: T, term: T|
            #![trigger adds_to(sum, term, r)]
            dot_gives(start, x1, y1, sum) && multiplies_to(x.last(), y.last(), term) && adds_to(
                sum,
                term,
                r,
            );
        lemma_dot(value, start, x1, y1, sum);
        lemma_total_eq(f, g, x.len() - 1);
    }
}

pub proof fn lemma_sum<T: Default + Add<Output = T> + Mul<Output = T>>(
    value: spec_fn(T) -> int,
    start: T,
    x: Seq<T>,
    r: T,
)
    requires
        is_exact(value),
        sum_gives(start, x, r),
    ensures
        value(r) == value(start) + total(|k: int| value(x[k]), x.len() as int),
    decreases x.len(),
{
    let f = |k: int| value(x[k]);
    if x.len() > 0 {
        let x1 = x.drop_last();
        let g = |k: int| value(x1[k]);
        let sum = choose|sum: T|
            #![trigger adds_to(sum, x.last(), r)]
            sum_gives(start, x1, sum) && adds_to(sum, x.last(), r);
        lemma_sum(value, start, x1, sum);
        lemma_total_eq(f, g, x.len() - 1);
    }
}

pub proof fn lemma_series<T: Default + Add<Output = T> + Mul<Output = T>>(
    value: spec_fn(T) -> int,
    start: T,
    term: spec_fn(int, T) -> bool,
    f: spec_fn(int) -> int,
    n: nat,
    r: T,
)
    requires
        is_exact(value),
        series_gives(start, term, n, r),
        forall|i: int, t: T| 0 <= i < n && #[trigger] term(i, t) ==> value(t) == f(i),
    ensures
        value(r) == value(start) + total(f, n as int),
    decreases n,
{
    if n > 0 {
        let (sum, t) = choose|sum: T, t: T|
            #![trigger adds_to(sum, t, r)]
            series_gives(start, term, (n - 1) as nat, sum) && term(n - 1, t) && adds_to(sum, t, r);
        lemma_series(value, start, term, f, (n - 1) as nat, sum);
    }
}

/// `C = A @ B^T`: each element of `C` is the sum of the products of a row of `A`
/// and a row of `B`.
pub proof fn lemma_product_t<T: Default + Add<Output = T> + Mul<Output = T>>(
    value: spec_fn(T) -> int,
    a: Seq<T>,
    b: Seq<T>,
    m: int,
    k: int,
    n: int,
    c: Seq<T>,
    i: int,
    j: int,
)
    requires
        is_exact(value),
        product_t_gives(a, b, m, k, n, c),
        a.len() == m * k,
        b.len() == n * k,
        0 <= k,
        0 <= i < m,
        0 <= j < n,
    ensures
        value(c[i * n + j]) == total(
            |l: int| value(a[i * k + l]) * value(b[j * k + l]),
            k,
        ),
{
    let zero = choose|zero: T| #[trigger] is_zero(zero) && is_product_t(c, a, b, m, k, n, zero);
    let r = cell(c, n, i, j);
    let (x, y) = (row_of(a, k, i), row_of(b, k, j));
    lemma_row_bounds(i, m, k);
    lemma_row_bounds(j, n, k);
    assert(dot_gives(zero, x, y, r));
    lemma_dot(value, zero, x, y, r);
    lemma_total_eq(
        |l: int| value(x[l]) * value(y[l]),
        |l: int| value(a[i * k + l]) * value(b[j * k + l]),
        k,
    );
}

/// `C = A @ B`: each element of `C` is the sum of the products of a row of `A`
/// and a column of `B`.
pub proof fn lemma_product<T: Default + Add<Output = T> + Mul<Output = T>>(
    value: spec_fn(T) -> int,
    a: Seq<T>,
    b: Seq<T>,
    m: int,
    k: int,
    n: int,
    c: Seq<T>,
    i: int,
    j: int,
)
    requires
        is_exact(value),
        product_gives(a, b, m, k, n, c),
        a.len() == m * k,
        b.len() == k * n,
        0 <= k,
        0 <= i < m,
        0 <= j < n,
    ensures
        value(c[i * n + j]) == total(
            |l: int| value(a[i * k + l]) * value(b[l * n + j]),
            k,
        ),
{
    let zero = choose|zero: T| #[trigger] is_zero(zero) && is_product(c, a, b, m, k, n, zero);
    let r = cell(c, n, i, j);
    let (x, y) = (row_of(a, k, i), column_of(b, k, n, j));
    lemma_row_bounds(i, m, k);
    assert(dot_gives(zero, x, y, r));
    lemma_dot(value, zero, x, y, r);
    lemma_total_eq(
        |l: int| value(x[l]) * value(y[l]),
        |l: int| value(a[i * k + l]) * value(b[l * n + j]),
        k,
    );
}

/// `y = x @ W^T + b`: each element of `y` is a row of `x` times a row of `W`, plus
/// the offset of the column.
pub proof fn lemma_linear<T: Default + Add<Output = T> + Mul<Output = T>>(
    value: spec_fn(T) -> int,
    out: Tensor<T>,
    x: Tensor<T>,
    weight: Tensor<T>,
    bias: Option<&Tensor<T>>,
    i: int,
    o: int,
)
    requires
        is_exact(value),
        is_linear(out, x, weight, bias),
        x.wf(),
        x.dims().len() == 2,
        weight.wf(),
        weight.dims().len() == 2,
        weight.dims()[1] == x.dims()[1],
        bias matches Some(b) ==> b.wf() && b.dims() == seq![weight.dims()[0]],
        0 <= i < x.dims()[0],
        0 <= o < weight.dims()[0],
    ensures
        at(value, out, i, o) == weighted(value, x, i, weight, o) + match bias {
            Some(b) => value(b.elems()[o]),
            None => 0,
        },
{
    let n = weight.dims()[0] as int;
    let k = weight.dims()[1] as int;
    let m = x.dims()[0] as int;
    lemma_product_2(x.dims());
    lemma_product_2(weight.dims());
    lemma_product_2(out.dims());
    let y = choose|y: Seq<T>|
        product_t_gives(x.elems(), weight.elems(), m, k, n, y) && #[trigger] with_bias(
            out.elems(),
            y,
            bias,
        );
    lemma_product_t(value, x.elems(), weight.elems(), m, k, n, y, i, o);
    lemma_cell_index(i, o, m, n);
    lemma_total_eq(
        |l: int| value(x.elems()[i * k + l]) * value(weight.elems()[o * k + l]),
        |l: int| at(value, x, i, l) * at(value, weight, o, l),
        k,
    );
    if let Some(b) = bias {
        lemma_product_1(b.dims());
        let p = i * n + o;
        assert(adds_to(y[p], b.elems()[p % n], out.elems()[p]));
    }
}

/// A row of an embedding is the row of the table that the id names.
pub proof fn lemma_lookup<T>(
    value: spec_fn(T) -> int,
    out: Tensor<T>,
    ids: Seq<u32>,
    table: Tensor<T>,
    i: int,
    j: int,
)
    requires
        is_lookup(out, ids, table),
        0 <= i < ids.len(),
        0 <= j < table.dims()[1],
    ensures
        at(value, out, i, j) == at(value, table, ids[i] as int, j),
{
    assert(cell(out.elems(), table.dims()[1] as int, i, j) == cell(
        table.elems(),
        table.dims()[1] as int,
        ids[i] as int,
        j,
    ));
}

/// Each element of a sum is the sum of the elements there.
pub proof fn lemma_elementwise_sum<T: Default + Add<Output = T> + Mul<Output = T>>(
    value: spec_fn(T) -> int,
    out: Tensor<T>,
    a: Tensor<T>,
    b: Tensor<T>,
    i: int,
    j: int,
)
    requires
        is_exact(value),
        is_sum(out, a, b),
        a.dims().len() == 2,
        b.dims() == a.dims(),
        0 <= i < a.dims()[0],
        0 <= j < a.dims()[1],
    ensures
        at(value, out, i, j) == at(value, a, i, j) + at(value, b, i, j),
{
    lemma_product_2(a.dims());
    lemma_cell_index(i, j, a.dims()[0] as int, a.dims()[1] as int);
    let p = i * a.dims()[1] + j;
    assert(adds_to(a.elems()[p], b.elems()[p], out.elems()[p]));
}

/// Each element of a product by elements is the product of the elements there.
pub proof fn lemma_elementwise_product<T: Default + Add<Output = T> + Mul<Output = T>>(
    value: spec_fn(T) -> int,
    out: Tensor<T>,
    a: Tensor<T>,
    b: Tensor<T>,
    i: int,
    j: int,
)
    requires
        is_exact(value),
        is_elementwise_product(out, a, b),
        a.dims().len() == 2,
        b.dims() == a.dims(),
        0 <= i < a.dims()[0],
        0 <= j < a.dims()[1],
    ensures
        at(value, out, i, j) == at(value, a, i, j) * at(value, b, i, j),
{
    lemma_product_2(a.dims());
    lemma_cell_index(i, j, a.dims()[0] as int, a.dims()[1] as int);
    let p = i * a.dims()[1] + j;
    assert(multiplies_to(a.elems()[p], b.elems()[p], out.elems()[p]));
}

/// Two matrices with the same elements.
pub open spec fn same_matrix<T>(a: Tensor<T>, b: Tensor<T>) -> bool {
    &&& a.wf()
    &&& b.wf()
    &&& a.dims().len() == 2
    &&& a.dims() == b.dims()
    &&& a.elems() == b.elems()
}

/// Matrices whose elements have the same values are the same.
pub proof fn lemma_same_cells<T: Default + Add<Output = T> + Mul<Output = T>>(
    value: spec_fn(T) -> int,
    a: Tensor<T>,
    b: Tensor<T>,
)
    requires
        is_exact(value),
        a.wf(),
        b.wf(),
        a.dims().len() == 2,
        a.dims() == b.dims(),
        forall|i: int, j: int|
            0 <= i < a.dims()[0] && 0 <= j < a.dims()[1] ==> #[trigger] at(value, a, i, j) == at(
                value,
                b,
                i,
                j,
            ),
    ensures
        same_matrix(a, b),
{
    lemma_product_2(a.dims());
    let cols = a.dims()[1] as int;
    assert forall|p: int| 0 <= p < a.elems().len() implies a.elems()[p] == b.elems()[p] by {
        lemma_row_of_index(p, a.dims()[0] as int, cols);
        assert(at(value, a, p / cols, p % cols) == at(value, b, p / cols, p % cols));
    }
    assert(a.elems() =~= b.elems());
}

/// The same matrix times the same weight, plus the same offsets, is the same.
pub proof fn lemma_same_linear<T: Default + Add<Output = T> + Mul<Output = T>>(
    value: spec_fn(T) -> int,
    out: Tensor<T>,
    x: Tensor<T>,
    out2: Tensor<T>,
    x2: Tensor<T>,
    weight: Tensor<T>,
    bias: Option<&Tensor<T>>,
)
    requires
        is_exact(value),
        is_linear(out, x, weight, bias),
        is_linear(out2, x2, weight, bias),
        same_matrix(x, x2),
        weight.wf(),
        weight.dims().len() == 2,
        weight.dims()[1] == x.dims()[1],
        bias matches Some(b) ==> b.wf() && b.dims() == seq![weight.dims()[0]],
    ensures
        same_matrix(out, out2),
{
    assert forall|i: int, o: int|
        0 <= i < out.dims()[0] && 0 <= o < out.dims()[1] implies #[trigger] at(value, out, i, o)
        == at(value, out2, i, o) by {
        lemma_linear(value, out, x, weight, bias, i, o);
        lemma_linear(value, out2, x2, weight, bias, i, o);
        lemma_total_eq(
            |l: int| at(value, x, i, l) * at(value, weight, o, l),
            |l: int| at(value, x2, i, l) * at(value, weight, o, l),
            weight.dims()[1] as int,
        );
    }
    lemma_same_cells(value, out, out2);
}

/// Sums of the same matrices are the same.
pub proof fn lemma_same_sum<T: Default + Add<Output = T> + Mul<Output = T>>(
    value: spec_fn(T) -> int,
    out: Tensor<T>,
    a: Tensor<T>,
    b: Tensor<T>,
    out2: Tensor<T>,
    a2: Tensor<T>,
    b2: Tensor<T>,
)
    requires
        is_exact(value),
        is_sum(out, a, b),
        is_sum(out2, a2, b2),
        same_matrix(a, a2),
        same_matrix(b, b2),
        a.dims() == b.dims(),
    ensures
        same_matrix(out, out2),
{
    assert forall|i: int, j: int|
        0 <= i < out.dims()[0] && 0 <= j < out.dims()[1] implies #[trigger] at(value, out, i, j)
        == at(value, out2, i, j) by {
        lemma_elementwise_sum(value, out, a, b, i, j);
        lemma_elementwise_sum(value, out2, a2, b2, i, j);
    }
    lemma_same_cells(value, out, out2);
}

/// For the same element the same element comes out.
pub open spec fn maps_to_one<T, G: Fn(T) -> T>(f: G) -> bool {
    forall|x: T, y: T, z: T| #[trigger]
        call_ensures(f, (x,), y) && #[trigger] call_ensures(f, (x,), z) ==> y == z
}

/// What a function makes of the same matrix is the same.
pub proof fn lemma_same_mapped<T, G: Fn(T) -> T>(
    out: Tensor<T>,
    x: Tensor<T>,
    out2: Tensor<T>,
    x2: Tensor<T>,
    f: G,
)
    requires
        maps_to_one(f),
        is_mapped(out, x, f),
        is_mapped(out2, x2, f),
        same_matrix(x, x2),
    ensures
        same_matrix(out, out2),
{
    assert forall|p: int| 0 <= p < out.elems().len() implies out.elems()[p] == out2.elems()[p] by {
        let (y, z) = (out.elems()[p], out2.elems()[p]);
        assert(call_ensures(f, (x.elems()[p],), y));
        assert(call_ensures(f, (x.elems()[p],), z));
    }
    assert(out.elems() =~= out2.elems());
}

/// Row number `i` of a normalized matrix.
pub proof fn lemma_normed_row<T, N: Fn(&[T], &[T], &[T], T) -> Vec<T>>(
    out: Tensor<T>,
    x: Tensor<T>,
    gamma: Tensor<T>,
    beta: Tensor<T>,
    eps: T,
    norm: N,
    i: int,
)
    requires
        is_layer_norm(out, x, gamma, beta, eps, norm),
        x.dims().len() == 2,
        0 <= i < x.dims()[0],
    ensures
        row_normalizes(
            norm,
            row_of(x.elems(), x.dims()[1] as int, i),
            gamma.elems(),
            beta.elems(),
            eps,
            row_of(out.elems(), x.dims()[1] as int, i),
        ),
{
    let dims = x.dims();
    lemma_product_1(dims.drop_last());
    assert(row_count(dims) == dims[0]);
    assert(dims.last() == dims[1]);
    let row = row_of(out.elems(), dims.last() as int, i);
}

/// Row number `i` of a matrix normalized by its root mean square.
pub proof fn lemma_rms_normed_row<T, N: Fn(&[T], &[T], T) -> Vec<T>>(
    out: Tensor<T>,
    x: Tensor<T>,
    weight: Tensor<T>,
    eps: T,
    norm: N,
    i: int,
)
    requires
        is_rms_norm(out, x, weight, eps, norm),
        x.dims().len() == 2,
        0 <= i < x.dims()[0],
    ensures
        row_scales(
            norm,
            row_of(x.elems(), x.dims()[1] as int, i),
            weight.elems(),
            eps,
            row_of(out.elems(), x.dims()[1] as int, i),
        ),
{
    let dims = x.dims();
    lemma_product_1(dims.drop_last());
    assert(row_count(dims) == dims[0]);
    assert(dims.last() == dims[1]);
    let row = row_of(out.elems(), dims.last() as int, i);
}

/// For the same row, scale and offset the same row comes out.
pub open spec fn normalizes_to_one<T, N: Fn(&[T], &[T], &[T], T) -> Vec<T>>(norm: N) -> bool {
    forall|x: Seq<T>, gamma: Seq<T>, beta: Seq<T>, eps: T, y: Seq<T>, z: Seq<T>| #[trigger]
        row_normalizes(norm, x, gamma, beta, eps, y) && #[trigger] row_normalizes(
            norm,
            x,
            gamma,
            beta,
            eps,
            z,
        ) ==> y == z
}

/// Normalizing the same matrix gives the same.
pub proof fn lemma_same_normed<T, N: Fn(&[T], &[T], &[T], T) -> Vec<T>>(
    out: Tensor<T>,
    x: Tensor<T>,
    out2: Tensor<T>,
    x2: Tensor<T>,
    gamma: Tensor<T>,
    beta: Tensor<T>,
    eps: T,
    norm: N,
)
    requires
        normalizes_to_one(norm),
        is_layer_norm(out, x, gamma, beta, eps, norm),
        is_layer_norm(out2, x2, gamma, beta, eps, norm),
        same_matrix(x, x2),
    ensures
        same_matrix(out, out2),
{
    lemma_product_2(x.dims());
    let cols = x.dims()[1] as int;
    assert forall|p: int| 0 <= p < out.elems().len() implies out.elems()[p] == out2.elems()[p] by {
        lemma_row_of_index(p, x.dims()[0] as int, cols);
        let i = p / cols;
        lemma_normed_row(out, x, gamma, beta, eps, norm, i);
        lemma_normed_row(out2, x2, gamma, beta, eps, norm, i);
        lemma_row_bounds(i, x.dims()[0] as int, cols);
        assert(out.elems()[p] == row_of(out.elems(), cols, i)[p % cols]);
        assert(out2.elems()[p] == row_of(out2.elems(), cols, i)[p % cols]);
    }
    assert(out.elems() =~= out2.elems());
}

/// `f` may make `y` of an element with the value `z`.
pub open spec fn activates<T, G: Fn(T) -> T>(value: spec_fn(T) -> int, f: G, z: int, y: T) -> bool {
    exists|x: T| #[trigger] call_ensures(f, (x,), y) && value(x) == z
}

/// All elements have the value zero.
pub open spec fn is_null<T>(value: spec_fn(T) -> int, x: Tensor<T>) -> bool {
    forall|p: int| 0 <= p < x.elems().len() ==> value(#[trigger] x.elems()[p]) == 0
}

/// What a weight without any value but zero gives is zero.
pub proof fn lemma_null_weight<T>(
    value: spec_fn(T) -> int,
    x: Tensor<T>,
    i: int,
    weight: Tensor<T>,
    o: int,
)
    requires
        is_null(value, weight),
        weight.wf(),
        weight.dims().len() == 2,
        0 <= o < weight.dims()[0],
    ensures
        weighted(value, x, i, weight, o) == 0,
{
    lemma_product_2(weight.dims());
    let f = |l: int| at(value, x, i, l) * at(value, weight, o, l);
    assert forall|l: int| 0 <= l < weight.dims()[1] implies #[trigger] f(l) == 0 by {
        lemma_cell_index(o, l, weight.dims()[0] as int, weight.dims()[1] as int);
        let y = at(value, x, i, l);
        assert(y * 0 == 0) by (nonlinear_arith);
    }
    lemma_total_zero(f, weight.dims()[1] as int);
}

/// A row times row `o` of a weight.
pub open spec fn row_weighted<T>(
    value: spec_fn(T) -> int,
    row: Seq<T>,
    weight: Tensor<T>,
    o: int,
) -> int {
    total(|l: int| value(row[l]) * at(value, weight, o, l), weight.dims()[1] as int)
}

/// A row of a matrix times a row of a weight.
pub proof fn lemma_row_weighted<T>(
    value: spec_fn(T) -> int,
    x: Tensor<T>,
    i: int,
    weight: Tensor<T>,
    o: int,
)
    requires
        x.wf(),
        x.dims().len() == 2,
        0 <= i < x.dims()[0],
        weight.dims()[1] == x.dims()[1],
    ensures
        weighted(value, x, i, weight, o) == row_weighted(
            value,
            row_of(x.elems(), x.dims()[1] as int, i),
            weight,
            o,
        ),
{
    lemma_product_2(x.dims());
    let row = row_of(x.elems(), x.dims()[1] as int, i);
    lemma_row_bounds(i, x.dims()[0] as int, x.dims()[1] as int);
    lemma_total_eq(
        |l: int| at(value, x, i, l) * at(value, weight, o, l),
        |l: int| value(row[l]) * at(value, weight, o, l),
        weight.dims()[1] as int,
    );
}

} // verus!
