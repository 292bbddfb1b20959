//! Attention query by query: with a bias on the scores, causal, and to the keys
//! and values of another sequence.
//!
//! Each query is compared with the keys that it attends to and with no others. A
//! causal query attends to the keys of its own position and of those before it.

use vstd::prelude::*;
use vstd::slice::{slice_subrange, slice_to_vec};
use core::ops::{Add, Mul};
use crate::num::{adds_to, can_add, can_multiply, lemma_row_bounds, lemma_row_of_index, row_of};
use crate::ops::attention::{
    extract_head, head_columns, heads_divide, is_scaled, lemma_head_round_trip,
    lemma_heads_divide, write_head_back,
};
use crate::ops::elementwise::scale;
use crate::ops::matmul::{matmul, matmul_t_b, product_gives, product_t_gives};
use crate::ops::rows::row_becomes;
use crate::ops::softmax::is_row_softmax;
use crate::tensor::{Tensor, lemma_product_2, lemma_product_3};

verus! {

/// How many of `cols` keys the query at position `i` attends to: all of them,
/// and if it is causal none behind its position.
pub open spec fn attended(i: int, cols: int, causal: bool) -> int {
    if causal && i + 1 < cols {
        i + 1
    } else {
        cols
    }
}

/// `out` may be `x` with the bias, if there is one, added to each element.
pub open spec fn is_biased<T: Add<Output = T>>(
    out: Seq<T>,
    x: Seq<T>,
    bias: Option<Seq<T>>,
) -> bool {
    match bias {
        None => out == x,
        Some(b) => out.len() == x.len() && forall|j: int|
            0 <= j < out.len() ==> adds_to(x[j], b[j], #[trigger] out[j]),
    }
}

/// What a query computes on the way.
pub struct QueryTrace<T> {
    pub raw: Seq<T>,
    pub scaled: Seq<T>,
    pub scores: Seq<T>,
    pub weights: Seq<T>,
}

/// A query may make `out` of `n` keys and values, by way of `t`:
/// `softmax(q K^T * factor + bias) V`.
pub open spec fn query_gives<
    T: Default + Add<Output = T> + Mul<Output = T>,
    S: Fn(&[T]) -> Vec<T>,
>(
    out: Seq<T>,
    q: Seq<T>,
    k: Seq<T>,
    v: Seq<T>,
    n: int,
    head_dim: int,
    bias: Option<Seq<T>>,
    factor: T,
    softmax: S,
    t: QueryTrace<T>,
) -> bool {
    &&& product_t_gives(q, k, 1, head_dim, n, t.raw)
    &&& is_scaled(t.scaled, t.raw, factor)
    &&& is_biased(t.scores, t.scaled, bias)
    &&& row_becomes(softmax, t.scores, t.weights)
    &&& product_gives(t.weights, v, 1, n, head_dim, out)
}

/// A query may make `out` of `n` keys and values.
pub open spec fn query_may_give<
    T: Default + Add<Output = T> + Mul<Output = T>,
    S: Fn(&[T]) -> Vec<T>,
>(
    out: Seq<T>,
    q: Seq<T>,
    k: Seq<T>,
    v: Seq<T>,
    n: int,
    head_dim: int,
    bias: Option<Seq<T>>,
    factor: T,
    softmax: S,
) -> bool {
    exists|t: QueryTrace<T>| #[trigger]
        query_gives(out, q, k, v, n, head_dim, bias, factor, softmax, t)
}

/// How many queries, keys and heads there are, and how wide a head is.
pub struct AttentionSize {
    pub rows: int,
    pub cols: int,
    pub heads: int,
    pub head_dim: int,
}

/// The biases of the query at position `i` of head number `h` for its first `n`
/// keys.
pub open spec fn query_bias<T>(
    bias: Option<Seq<T>>,
    size: AttentionSize,
    h: int,
    i: int,
    n: int,
) -> Option<Seq<T>> {
    match bias {
        None => None,
        Some(b) => {
            let start = (h * size.rows + i) * size.cols;
            Some(b.subrange(start, start + n))
        },
    }
}

/// The query at position `i` of head number `h` may make `out` of the keys and
/// values that it attends to.
pub open spec fn position_may_give<
    T: Default + Add<Output = T> + Mul<Output = T>,
    S: Fn(&[T]) -> Vec<T>,
>(
    out: Seq<T>,
    q: Seq<T>,
    k: Seq<T>,
    v: Seq<T>,
    size: AttentionSize,
    bias: Option<Seq<T>>,
    causal: bool,
    factor: T,
    softmax: S,
    h: int,
    i: int,
) -> bool {
    let n = attended(i, size.cols, causal);
    query_may_give(
        out,
        row_of(head_columns(q, size.rows, size.heads, size.head_dim, h), size.head_dim, i),
        head_columns(k, size.cols, size.heads, size.head_dim, h).take(n * size.head_dim),
        head_columns(v, size.cols, size.heads, size.head_dim, h).take(n * size.head_dim),
        n,
        size.head_dim,
        query_bias(bias, size, h, i, n),
        factor,
        softmax,
    )
}

/// The columns of head number `h` may be `part`: each row is what the query
/// there may make of the keys and values that it attends to.
pub open spec fn head_may_give<
    T: Default + Add<Output = T> + Mul<Output = T>,
    S: Fn(&[T]) -> Vec<T>,
>(
    part: Seq<T>,
    q: Seq<T>,
    k: Seq<T>,
    v: Seq<T>,
    size: AttentionSize,
    bias: Option<Seq<T>>,
    causal: bool,
    factor: T,
    softmax: S,
    h: int,
) -> bool {
    forall|i: int|
        0 <= i < size.rows ==> position_may_give(
            #[trigger] row_of(part, size.head_dim, i),
            q,
            k,
            v,
            size,
            bias,
            causal,
            factor,
            softmax,
            h,
            i,
        )
}

/// Attention may give `out`: the columns of every head are what its queries may
/// make of the keys and values that they attend to.
pub open spec fn attention_gives<
    T: Default + Add<Output = T> + Mul<Output = T>,
    S: Fn(&[T]) -> Vec<T>,
>(
    out: Seq<T>,
    q: Seq<T>,
    k: Seq<T>,
    v: Seq<T>,
    size: AttentionSize,
    bias: Option<Seq<T>>,
    causal: bool,
    factor: T,
    softmax: S,
) -> bool {
    &&& out.len() == size.rows * (size.heads * size.head_dim)
    &&& forall|h: int|
        0 <= h < size.heads ==> head_may_give(
            #[trigger] head_columns(out, size.rows, size.heads, size.head_dim, h),
            q,
            k,
            v,
            size,
            bias,
            causal,
            factor,
            softmax,
            h,
        )
}

/// The sizes of an attention from `q` to `k`.
pub open spec fn size_of_attention<T>(q: Tensor<T>, k: Tensor<T>, num_heads: usize) -> AttentionSize {
    AttentionSize {
        rows: q.dims()[0] as int,
        cols: k.dims()[0] as int,
        heads: num_heads as int,
        head_dim: (q.dims()[1] / num_heads) as int,
    }
}

/// The elements of a bias, if there is one.
pub open spec fn bias_elems<T>(bias: Option<&Tensor<T>>) -> Option<Seq<T>> {
    match bias {
        None => None,
        Some(b) => Some(b.elems()),
    }
}

/// Queries, keys and values of matching shapes, with something to attend to for
/// every query, and a bias for each pair of positions and head, if there is one.
pub open spec fn attention_fits<T>(
    q: Tensor<T>,
    k: Tensor<T>,
    v: Tensor<T>,
    num_heads: usize,
    bias: Option<&Tensor<T>>,
) -> bool {
    &&& q.wf()
    &&& k.wf()
    &&& v.wf()
    &&& q.dims().len() == 2
    &&& k.dims().len() == 2
    &&& k.dims()[1] == q.dims()[1]
    &&& v.dims() == k.dims()
    &&& heads_divide(q.dims()[1], num_heads)
    &&& q.dims()[0] > 0 ==> k.dims()[0] > 0
    &&& bias matches Some(b) ==> b.wf() && b.dims() == seq![num_heads, q.dims()[0], k.dims()[0]]
}

/// The first `n` rows of a matrix.
fn first_rows<T: Copy>(x: &Tensor<T>, n: usize) -> (res: Tensor<T>)
    requires
        x.wf(),
        x.dims().len() == 2,
        n <= x.dims()[0],
    ensures
        res.wf(),
        res.dims() == seq![n, x.dims()[1]],
        res.elems() == x.elems().take(n * x.dims()[1]),
{
    let shape = *x.shape();
    let width: usize = shape.as_slice()[1];
    let data = x.data();
    let _len: usize = data.len();
    proof {
        lemma_product_2(x.dims());
        lemma_product_2(seq![n, width]);
        assert(n * width <= x.dims()[0] * width) by (nonlinear_arith)
            requires
                n <= x.dims()[0],
        ;
    }
    let part = slice_to_vec(slice_subrange(data, 0, n * width));
    assert(part@ =~= x.elems().take(n * width));
    Tensor::from_vec(part, &[n, width])
}

/// Adds a bias to a row of scores.
fn add_bias<T: Copy + Add<Output = T>>(scores: &[T], bias: &[T]) -> (res: Vec<T>)
    requires
        scores@.len() == bias@.len(),
        can_add::<T>(),
    ensures
        is_biased(res@, scores@, Some(bias@)),
{
    let n: usize = scores.len();
    let mut out: Vec<T> = Vec::new();
    let mut j: usize = 0;
    while j < n
        invariant
            j <= n,
            n == scores@.len(),
            n == bias@.len(),
            can_add::<T>(),
            out@.len() == j,
            forall|c: int| 0 <= c < j ==> adds_to(scores@[c], bias@[c], #[trigger] out@[c]),
        decreases n - j,
    {
        out.push(crate::num::plus(scores[j], bias[j]));
        j = j + 1;
    }
    out
}

/// The work of one query, a `[1, head_dim]` matrix.
fn attend_query<T: Copy + Default + Add<Output = T> + Mul<Output = T>, S: Fn(&[T]) -> Vec<T>>(
    q: &Tensor<T>,
    k: &Tensor<T>,
    v: &Tensor<T>,
    bias: Option<&[T]>,
    factor: T,
    softmax: &S,
) -> (res: Tensor<T>)
    requires
        q.wf(),
        k.wf(),
        v.wf(),
        q.dims().len() == 2,
        q.dims()[0] == 1,
        k.dims().len() == 2,
        k.dims()[1] == q.dims()[1],
        v.dims() == k.dims(),
        bias matches Some(b) ==> b@.len() == k.dims()[0],
        can_add::<T>(),
        can_multiply::<T>(),
        is_row_softmax(*softmax),
    ensures
        res.wf(),
        res.dims() == q.dims(),
        query_may_give(
            res.elems(),
            q.elems(),
            k.elems(),
            v.elems(),
            k.dims()[0] as int,
            q.dims()[1] as int,
            match bias {
                None => None,
                Some(b) => Some(b@),
            },
            factor,
            *softmax,
        ),
{
    let k_shape = *k.shape();
    let n: usize = k_shape.as_slice()[0];
    proof {
        lemma_product_2(seq![1, n]);
    }
    let raw = matmul_t_b(q, k);
    let scaled = scale(&raw, factor);
    assert(is_scaled(scaled.elems(), raw.elems(), factor));
    let scores = match bias {
        None => slice_to_vec(scaled.data()),
        Some(b) => add_bias(scaled.data(), b),
    };
    let row = scores.as_slice();
    let weights = softmax(row);
    assert(row_becomes(*softmax, scores@, weights@));
    let ghost t = QueryTrace {
        raw: raw.elems(),
        scaled: scaled.elems(),
        scores: scores@,
        weights: weights@,
    };
    let weights = Tensor::from_vec(weights, &[1, n]);
    let res = matmul(&weights, v);
    assert(res.dims() =~= q.dims());
    assert(query_gives(
        res.elems(),
        q.elems(),
        k.elems(),
        v.elems(),
        n as int,
        q.dims()[1] as int,
        match bias {
            None => None,
            Some(b) => Some(b@),
        },
        factor,
        *softmax,
        t,
    ));
    res
}

/// Rows that were there stay when a row is appended.
proof fn lemma_append_row<T>(before: Seq<T>, row: Seq<T>, i: int, width: int)
    requires
        0 <= i,
        0 <= width,
        before.len() == i * width,
        row.len() == width,
    ensures
        (before + row).len() == (i + 1) * width,
        row_of(before + row, width, i) == row,
        forall|r: int|
            0 <= r < i ==> #[trigger] row_of(before + row, width, r) == row_of(before, width, r),
{
    lemma_row_bounds(i, i + 1, width);
    assert(row_of(before + row, width, i) =~= row);
    assert forall|r: int| 0 <= r < i implies #[trigger] row_of(before + row, width, r) == row_of(
        before,
        width,
        r,
    ) by {
        lemma_row_bounds(r, i, width);
        assert(row_of(before + row, width, r) =~= row_of(before, width, r));
    }
}

/// The work of one head, on its columns.
fn attend_columns<T: Copy + Default + Add<Output = T> + Mul<Output = T>, S: Fn(&[T]) -> Vec<T>>(
    q: &Tensor<T>,
    k: &Tensor<T>,
    v: &Tensor<T>,
    num_heads: usize,
    h: usize,
    bias: Option<&Tensor<T>>,
    causal: bool,
    factor: T,
    softmax: &S,
) -> (res: Tensor<T>)
    requires
        attention_fits(*q, *k, *v, num_heads, bias),
        h < num_heads,
        can_add::<T>(),
        can_multiply::<T>(),
        is_row_softmax(*softmax),
    ensures
        res.wf(),
        res.dims() == seq![q.dims()[0], (q.dims()[1] / num_heads)],
        head_may_give(
            res.elems(),
            q.elems(),
            k.elems(),
            v.elems(),
            size_of_attention(*q, *k, num_heads),
            bias_elems(bias),
            causal,
            factor,
            *softmax,
            h as int,
        ),
{
    let q_h = extract_head(q, h, num_heads);
    let k_h = extract_head(k, h, num_heads);
    let v_h = extract_head(v, h, num_heads);
    let q_shape = *q_h.shape();
    let rows: usize = q_shape.as_slice()[0];
    let width: usize = q_shape.as_slice()[1];
    let k_shape = *k_h.shape();
    let cols: usize = k_shape.as_slice()[0];
    let ghost size = size_of_attention(*q, *k, num_heads);
    let q_data = q_h.data();
    let _q_len: usize = q_data.len();
    proof {
        lemma_product_2(q_h.dims());
        lemma_product_2(k_h.dims());
        lemma_product_2(seq![1, width]);
    }
    let mut out: Vec<T> = Vec::new();
    let mut i: usize = 0;
    while i < rows
        invariant
            i <= rows,
            attention_fits(*q, *k, *v, num_heads, bias),
            h < num_heads,
            can_add::<T>(),
            can_multiply::<T>(),
            is_row_softmax(*softmax),
            size == size_of_attention(*q, *k, num_heads),
            rows == size.rows,
            cols == size.cols,
            width == size.head_dim,
            q_h.wf(),
            k_h.wf(),
            v_h.wf(),
            q_data@ == q_h.elems(),
            q_h.elems() == head_columns(q.elems(), size.rows, size.heads, size.head_dim, h as int),
            k_h.elems() == head_columns(k.elems(), size.cols, size.heads, size.head_dim, h as int),
            v_h.elems() == head_columns(v.elems(), size.cols, size.heads, size.head_dim, h as int),
            k_h.dims() == seq![cols, width],
            v_h.dims() == seq![cols, width],
            q_data@.len() == rows * width,
            rows * width <= usize::MAX,
            out@.len() == i * width,
            forall|r: int|
                0 <= r < i ==> position_may_give(
                    #[trigger] row_of(out@, size.head_dim, r),
                    q.elems(),
                    k.elems(),
                    v.elems(),
                    size,
                    bias_elems(bias),
                    causal,
                    factor,
                    *softmax,
                    h as int,
                    r,
                ),
        decreases rows - i,
    {
        let n: usize = if causal && i + 1 < cols {
            i + 1
        } else {
            cols
        };
        proof {
            lemma_row_bounds(i as int, rows as int, width as int);
        }
        let query = slice_to_vec(slice_subrange(q_data, i * width, i * width + width));
        assert(query@ =~= row_of(q_h.elems(), width as int, i as int));
        let query_shape: [usize; 2] = [1, width];
        proof {
            lemma_product_2(query_shape@);
            assert(query_shape@[0] * query_shape@[1] == width) by (nonlinear_arith)
                requires
                    query_shape@[0] == 1,
                    query_shape@[1] == width,
            ;
        }
        let query = Tensor::from_vec(query, &query_shape);
        let keys = first_rows(&k_h, n);
        let values = first_rows(&v_h, n);
        let ghost wanted = query_bias(bias_elems(bias), size, h as int, i as int, n as int);
        let part = match bias {
            None => attend_query(&query, &keys, &values, None, factor, softmax),
            Some(b) => {
                let data = b.data();
                let _len: usize = data.len();
                proof {
                    lemma_product_3(b.dims());
                    lemma_bias_bounds(num_heads as int, rows as int, cols as int, h as int, i as int);
                    assert(h * rows + i <= usize::MAX) by (nonlinear_arith)
                        requires
                            0 < cols,
                            0 <= h * rows + i,
                            (h * rows + i) * cols <= usize::MAX,
                    ;
                }
                let start: usize = (h * rows + i) * cols;
                let row = slice_subrange(data, start, start + n);
                assert(Some(row@) == wanted);
                attend_query(&query, &keys, &values, Some(row), factor, softmax)
            },
        };
        let mut part_data = slice_to_vec(part.data());
        let ghost before = out@;
        let ghost row = part_data@;
        out.append(&mut part_data);
        proof {
            lemma_product_2(part.dims());
            assert(out@ =~= before + row);
            lemma_append_row(before, row, i as int, width as int);
            assert forall|r: int| 0 <= r < i + 1 implies position_may_give(
                #[trigger] row_of(out@, size.head_dim, r),
                q.elems(),
                k.elems(),
                v.elems(),
                size,
                bias_elems(bias),
                causal,
                factor,
                *softmax,
                h as int,
                r,
            ) by {
                if r < i {
                    assert(row_of(out@, size.head_dim, r) == row_of(before, size.head_dim, r));
                }
            }
        }
        i = i + 1;
    }
    Tensor::from_vec(out, &[rows, width])
}

/// The biases of a query lie inside a bias for each pair of positions and head.
proof fn lemma_bias_bounds(heads: int, rows: int, cols: int, h: int, i: int)
    requires
        0 <= h < heads,
        0 <= i < rows,
        0 <= cols,
    ensures
        0 <= h * rows,
        h * rows + i < heads * rows,
        0 <= (h * rows + i) * cols,
        (h * rows + i) * cols + cols <= heads * rows * cols,
        h * rows + i <= heads * rows,
{
    lemma_row_bounds(h, heads, rows);
    lemma_row_bounds(h * rows + i, heads * rows, cols);
}

/// Multi-head attention with an optional bias on the scores.
///
/// - `q`: shape `[rows, hidden]`; `k`, `v`: shape `[cols, hidden]`
/// - `num_heads`: must divide `hidden` evenly
/// - `bias`: shape `[num_heads, rows, cols]`, added to the scaled scores
/// - `causal`: whether a query attends to no position behind its own
/// - `factor`: what the scores are scaled by
/// - `softmax`: turns a row of scores into weights
/// - returned tensor shape: `[rows, hidden]`
pub fn multi_head_attention_with_bias<
    T: Copy + Default + Add<Output = T> + Mul<Output = T>,
    S: Fn(&[T]) -> Vec<T>,
>(
    q: &Tensor<T>,
    k: &Tensor<T>,
    v: &Tensor<T>,
    num_heads: usize,
    bias: Option<&Tensor<T>>,
    causal: bool,
    factor: T,
    softmax: &S,
) -> (res: Tensor<T>)
    requires
        attention_fits(*q, *k, *v, num_heads, bias),
        can_add::<T>(),
        can_multiply::<T>(),
        is_row_softmax(*softmax),
    ensures
        res.wf(),
        res.dims() == q.dims(),
        attention_gives(
            res.elems(),
            q.elems(),
            k.elems(),
            v.elems(),
            size_of_attention(*q, *k, num_heads),
            bias_elems(bias),
            causal,
            factor,
            *softmax,
        ),
{
    let shape = *q.shape();
    let hidden: usize = shape.as_slice()[1];
    let ghost size = size_of_attention(*q, *k, num_heads);
    proof {
        lemma_product_2(q.dims());
        lemma_heads_divide(hidden, num_heads);
    }
    let zero = T::default();
    let n: usize = q.numel();
    let mut concat: Vec<T> = Vec::new();
    while concat.len() < n
        invariant
            concat@.len() <= n,
        decreases n - concat@.len(),
    {
        concat.push(zero);
    }
    let mut h: usize = 0;
    while h < num_heads
        invariant
            h <= num_heads,
            attention_fits(*q, *k, *v, num_heads, bias),
            can_add::<T>(),
            can_multiply::<T>(),
            is_row_softmax(*softmax),
            size == size_of_attention(*q, *k, num_heads),
            n == size.rows * (size.heads * size.head_dim),
            concat@.len() == n,
            forall|g: int|
                0 <= g < h ==> head_may_give(
                    #[trigger] head_columns(
                        concat@,
                        size.rows,
                        size.heads,
                        size.head_dim,
                        g,
                    ),
                    q.elems(),
                    k.elems(),
                    v.elems(),
                    size,
                    bias_elems(bias),
                    causal,
                    factor,
                    *softmax,
                    g,
                ),
        decreases num_heads - h,
    {
        let part = attend_columns(q, k, v, num_heads, h, bias, causal, factor, softmax);
        let ghost before = concat@;
        write_head_back(&mut concat, &part, h, num_heads);
        proof {
            lemma_product_2(part.dims());
            assert forall|g: int| 0 <= g < h + 1 implies head_may_give(
                #[trigger] head_columns(concat@, size.rows, size.heads, size.head_dim, g),
                q.elems(),
                k.elems(),
                v.elems(),
                size,
                bias_elems(bias),
                causal,
                factor,
                *softmax,
                g,
            ) by {
                lemma_head_round_trip(
                    concat@,
                    before,
                    part.elems(),
                    size.rows,
                    size.heads,
                    size.head_dim,
                    h as int,
                    g,
                );
            }
        }
        h = h + 1;
    }
    Tensor::from_vec(concat, shape.as_slice())
}

/// Causal multi-head attention from precomputed Q/K/V.
pub fn causal_multi_head_attention_from_qkv<
    T: Copy + Default + Add<Output = T> + Mul<Output = T>,
    S: Fn(&[T]) -> Vec<T>,
>(
    q: &Tensor<T>,
    k: &Tensor<T>,
    v: &Tensor<T>,
    num_heads: usize,
    factor: T,
    softmax: &S,
) -> (res: Tensor<T>)
    requires
        attention_fits(*q, *k, *v, num_heads, None),
        can_add::<T>(),
        can_multiply::<T>(),
        is_row_softmax(*softmax),
    ensures
        res.wf(),
        res.dims() == q.dims(),
        attention_gives(
            res.elems(),
            q.elems(),
            k.elems(),
            v.elems(),
            size_of_attention(*q, *k, num_heads),
            None,
            true,
            factor,
            *softmax,
        ),
{
    multi_head_attention_with_bias(q, k, v, num_heads, None, true, factor, softmax)
}

/// Attention of the queries of one sequence to the keys and values of another.
pub fn cross_attention_from_qkv<
    T: Copy + Default + Add<Output = T> + Mul<Output = T>,
    S: Fn(&[T]) -> Vec<T>,
>(
    q: &Tensor<T>,
    k: &Tensor<T>,
    v: &Tensor<T>,
    num_heads: usize,
    factor: T,
    softmax: &S,
) -> (res: Tensor<T>)
    requires
        attention_fits(*q, *k, *v, num_heads, None),
        can_add::<T>(),
        can_multiply::<T>(),
        is_row_softmax(*softmax),
    ensures
        res.wf(),
        res.dims() == q.dims(),
        attention_gives(
            res.elems(),
            q.elems(),
            k.elems(),
            v.elems(),
            size_of_attention(*q, *k, num_heads),
            None,
            false,
            factor,
            *softmax,
        ),
{
    multi_head_attention_with_bias(q, k, v, num_heads, None, false, factor, softmax)
}

/// The first rows of two matrices are the same.
pub open spec fn same_rows<T>(a: Seq<T>, b: Seq<T>, width: int, n: int) -> bool {
    &&& n * width <= a.len()
    &&& n * width <= b.len()
    &&& a.take(n * width) == b.take(n * width)
}

/// The columns of a head are the same in the first rows of two matrices that are
/// the same there.
proof fn lemma_same_columns<T>(
    a: Seq<T>,
    b: Seq<T>,
    rows: int,
    other_rows: int,
    heads: int,
    head_dim: int,
    h: int,
    n: int,
)
    requires
        0 <= h < heads,
        0 <= head_dim,
        0 <= n <= rows,
        n <= other_rows,
        same_rows(a, b, heads * head_dim, n),
    ensures
        n * head_dim <= head_columns(a, rows, heads, head_dim, h).len(),
        n * head_dim <= head_columns(b, other_rows, heads, head_dim, h).len(),
        head_columns(a, rows, heads, head_dim, h).take(n * head_dim) == head_columns(
            b,
            other_rows,
            heads,
            head_dim,
            h,
        ).take(n * head_dim),
{
    let width = heads * head_dim;
    assert(0 <= n * head_dim <= rows * head_dim && n * head_dim <= other_rows * head_dim)
        by (nonlinear_arith)
        requires
            0 <= n <= rows,
            n <= other_rows,
            0 <= head_dim,
    ;
    assert forall|c: int| 0 <= c < n * head_dim implies head_columns(
        a,
        rows,
        heads,
        head_dim,
        h,
    )[c] == head_columns(b, other_rows, heads, head_dim, h)[c] by {
        lemma_row_of_index(c, n, head_dim);
        let r = c / head_dim;
        let j = h * head_dim + c % head_dim;
        lemma_row_bounds(h, heads, head_dim);
        assert(0 <= j < width);
        lemma_row_bounds(r, n, width);
        let at = r * width + j;
        assert(a[at] == a.take(n * width)[at]);
        assert(b[at] == b.take(n * width)[at]);
    }
    assert(head_columns(a, rows, heads, head_dim, h).take(n * head_dim) =~= head_columns(
        b,
        other_rows,
        heads,
        head_dim,
        h,
    ).take(n * head_dim));
}

/// What a causal query makes of keys and values rests on the positions up to its
/// own alone: two sequences that are the same up to there, whatever follows and
/// however long they are, give the same.
pub proof fn lemma_causal_attention_looks_back<
    T: Default + Add<Output = T> + Mul<Output = T>,
    S: Fn(&[T]) -> Vec<T>,
>(
    out: Seq<T>,
    q: Seq<T>,
    k: Seq<T>,
    v: Seq<T>,
    size: AttentionSize,
    bias: Option<Seq<T>>,
    other_q: Seq<T>,
    other_k: Seq<T>,
    other_v: Seq<T>,
    other_size: AttentionSize,
    other_bias: Option<Seq<T>>,
    factor: T,
    softmax: S,
    h: int,
    i: int,
)
    requires
        size.heads == other_size.heads,
        size.head_dim == other_size.head_dim,
        0 <= size.head_dim,
        0 <= h < size.heads,
        0 <= i < size.rows,
        i < other_size.rows,
        i < size.cols,
        i < other_size.cols,
        same_rows(q, other_q, size.heads * size.head_dim, i + 1),
        same_rows(k, other_k, size.heads * size.head_dim, i + 1),
        same_rows(v, other_v, size.heads * size.head_dim, i + 1),
        query_bias(bias, size, h, i, i + 1) == query_bias(other_bias, other_size, h, i, i + 1),
    ensures
        position_may_give(out, q, k, v, size, bias, true, factor, softmax, h, i)
            == position_may_give(
            out,
            other_q,
            other_k,
            other_v,
            other_size,
            other_bias,
            true,
            factor,
            softmax,
            h,
            i,
        ),
{
    let n = i + 1;
    let d = size.head_dim;
    lemma_same_columns(q, other_q, size.rows, other_size.rows, size.heads, d, h, n);
    lemma_same_columns(k, other_k, size.cols, other_size.cols, size.heads, d, h, n);
    lemma_same_columns(v, other_v, size.cols, other_size.cols, size.heads, d, h, n);
    let x = head_columns(q, size.rows, size.heads, d, h);
    let y = head_columns(other_q, other_size.rows, size.heads, d, h);
    lemma_row_bounds(i, n, d);
    assert(row_of(x, d, i) =~= row_of(x.take(n * d), d, i));
    assert(row_of(y, d, i) =~= row_of(y.take(n * d), d, i));
}

} // verus!
