//! What attention amounts to where elements compute without rounding.

use vstd::prelude::*;
use core::ops::{Add, Mul};
use crate::exact::{is_exact, lemma_product, lemma_product_t, lemma_total_eq, total};
use crate::num::{adds_to, lemma_cell_index, lemma_row_bounds, multiplies_to, row_of};
use crate::ops::attention::queries::{
    AttentionSize, QueryTrace, attended, attention_gives, head_may_give, position_may_give,
    query_bias, query_gives,
};
use crate::ops::attention::{head_columns, is_attention, is_head_output, is_scaled};
use crate::ops::matmul::{product_gives, product_t_gives};
use crate::ops::rows::row_becomes;
use crate::ops::softmax::{is_row_softmax, is_softmax};

verus! {

/// Position `i` of head number `h` looks at the first `n` positions: `softmax`
/// makes weights of how well its query fits each key, and the position gets the
/// values by these weights.
pub open spec fn looks_at<T, S: Fn(&[T]) -> Vec<T>>(
    value: spec_fn(T) -> int,
    out: Seq<T>,
    q: Seq<T>,
    k: Seq<T>,
    v: Seq<T>,
    width: int,
    head_dim: int,
    h: int,
    i: int,
    n: int,
    bias: spec_fn(int) -> int,
    factor: T,
    softmax: S,
) -> bool {
    exists|scores: Seq<T>, weights: Seq<T>| #[trigger]
        row_becomes(softmax, scores, weights) && scores.len() == n && weights.len() == n && (
        forall|j: int|
            0 <= j < n ==> value(#[trigger] scores[j]) == value(factor) * total(
                |d: int|
                    value(q[i * width + (h * head_dim + d)]) * value(
                        k[j * width + (h * head_dim + d)],
                    ),
                head_dim,
            ) + bias(j)) && forall|c: int|
            0 <= c < head_dim ==> value(#[trigger] out[i * width + (h * head_dim + c)]) == total(
                |j: int| value(weights[j]) * value(v[j * width + (h * head_dim + c)]),
                n,
            )
}

/// An element of the columns of a head.
proof fn lemma_head_element<T>(
    x: Seq<T>,
    rows: int,
    heads: int,
    head_dim: int,
    h: int,
    i: int,
    d: int,
)
    requires
        0 <= i < rows,
        0 <= d < head_dim,
    ensures
        0 <= i * head_dim + d < rows * head_dim,
        head_columns(x, rows, heads, head_dim, h)[i * head_dim + d] == x[i * (heads * head_dim) + (h
            * head_dim + d)],
{
    lemma_cell_index(i, d, rows, head_dim);
}

proof fn lemma_one_row(n: int)
    ensures
        1 * n == n,
        0 * n == 0,
{
}

/// Attention by queries: every position of every head looks at the positions up to
/// its own if attention is causal, and at all of them if not; the bias for the
/// head, the position and the key is added to the score.
pub proof fn lemma_queries_look_at_keys<
    T: Default + Add<Output = T> + Mul<Output = T>,
    S: Fn(&[T]) -> Vec<T>,
>(
    value: spec_fn(T) -> int,
    out: Seq<T>,
    q: Seq<T>,
    k: Seq<T>,
    v: Seq<T>,
    size: AttentionSize,
    bias: Option<Seq<T>>,
    causal: bool,
    factor: T,
    softmax: S,
    h: int,
    i: int,
)
    requires
        is_exact(value),
        is_row_softmax(softmax),
        attention_gives(out, q, k, v, size, bias, causal, factor, softmax),
        0 < size.head_dim,
        0 <= h < size.heads,
        0 <= i < size.rows,
        0 <= size.cols,
        bias matches Some(b) ==> b.len() == size.heads * size.rows * size.cols,
    ensures
        looks_at(
            value,
            out,
            q,
            k,
            v,
            size.heads * size.head_dim,
            size.head_dim,
            h,
            i,
            if causal && i < size.cols {
                i + 1
            } else {
                size.cols
            },
            |j: int|
                match bias {
                    Some(b) => value(b[(h * size.rows + i) * size.cols + j]),
                    None => 0,
                },
            factor,
            softmax,
        ),
{
    let d = size.head_dim;
    let width = size.heads * d;
    let n = attended(i, size.cols, causal);
    let part = head_columns(out, size.rows, size.heads, d, h);
    assert(head_may_give(part, q, k, v, size, bias, causal, factor, softmax, h));
    let row = row_of(part, d, i);
    assert(position_may_give(row, q, k, v, size, bias, causal, factor, softmax, h, i));
    let qh = head_columns(q, size.rows, size.heads, d, h);
    let kh = head_columns(k, size.cols, size.heads, d, h);
    let vh = head_columns(v, size.cols, size.heads, d, h);
    let (qr, kt, vt) = (row_of(qh, d, i), kh.take(n * d), vh.take(n * d));
    let b = query_bias(bias, size, h, i, n);
    let t = choose|t: QueryTrace<T>| #[trigger]
        query_gives(row, qr, kt, vt, n, d, b, factor, softmax, t);
    lemma_row_bounds(i, size.rows, d);
    assert(0 <= n * d <= size.cols * d) by (nonlinear_arith)
        requires
            0 <= n <= size.cols,
            0 < d,
    ;
    lemma_one_row(d);
    lemma_one_row(n);
    assert forall|j: int| 0 <= j < n implies value(#[trigger] t.scores[j]) == value(factor) * total(
        |e: int| value(q[i * width + (h * d + e)]) * value(k[j * width + (h * d + e)]),
        d,
    ) + match bias {
        Some(all) => value(all[(h * size.rows + i) * size.cols + j]),
        None => 0,
    } by {
        lemma_product_t(value, qr, kt, 1, d, n, t.raw, 0, j);
        let f = |l: int| value(qr[0 * d + l]) * value(kt[j * d + l]);
        let g = |e: int| value(q[i * width + (h * d + e)]) * value(k[j * width + (h * d + e)]);
        assert forall|e: int| 0 <= e < d implies #[trigger] f(e) == g(e) by {
            lemma_head_element(q, size.rows, size.heads, d, h, i, e);
            lemma_head_element(k, size.cols, size.heads, d, h, j, e);
            lemma_cell_index(j, e, n, d);
            lemma_one_row(d);
        }
        lemma_total_eq(f, g, d);
        assert(t.raw[0 * n + j] == t.raw[j]);
        assert(multiplies_to(t.raw[j], factor, t.scaled[j]));
        if let Some(all) = bias {
            lemma_row_bounds(h, size.heads, size.rows);
            lemma_row_bounds(h * size.rows + i, size.heads * size.rows, size.cols);
            let start = (h * size.rows + i) * size.cols;
            assert(all.subrange(start, start + n)[j] == all[start + j]);
            assert(adds_to(t.scaled[j], all.subrange(start, start + n)[j], t.scores[j]));
        }
        let sum = total(g, d);
        assert(sum * value(factor) == value(factor) * sum) by (nonlinear_arith);
    }
    assert forall|c: int| 0 <= c < d implies value(#[trigger] out[i * width + (h * d + c)]) == total(
        |j: int| value(t.weights[j]) * value(v[j * width + (h * d + c)]),
        n,
    ) by {
        lemma_product(value, t.weights, vt, 1, n, d, row, 0, c);
        let f = |l: int| value(t.weights[0 * n + l]) * value(vt[l * d + c]);
        let g = |j: int| value(t.weights[j]) * value(v[j * width + (h * d + c)]);
        assert forall|l: int| 0 <= l < n implies #[trigger] f(l) == g(l) by {
            lemma_head_element(v, size.cols, size.heads, d, h, l, c);
            lemma_cell_index(l, c, n, d);
            lemma_one_row(n);
        }
        lemma_total_eq(f, g, n);
        lemma_head_element(out, size.rows, size.heads, d, h, i, c);
        assert(row[0 * d + c] == part[i * d + c]);
    }
}

/// Attention without bias or mask: every position of every head looks at all
/// positions.
pub proof fn lemma_positions_look_at_all<
    T: Default + Add<Output = T> + Mul<Output = T>,
    S: Fn(&[T]) -> Vec<T>,
>(
    value: spec_fn(T) -> int,
    out: Seq<T>,
    q: Seq<T>,
    k: Seq<T>,
    v: Seq<T>,
    rows: usize,
    heads: int,
    head_dim: int,
    factor: T,
    softmax: S,
    h: int,
    i: int,
)
    requires
        is_exact(value),
        is_row_softmax(softmax),
        is_attention(out, q, k, v, rows, heads, head_dim, factor, softmax),
        0 < head_dim,
        0 <= h < heads,
        0 <= i < rows,
    ensures
        looks_at(
            value,
            out,
            q,
            k,
            v,
            heads * head_dim,
            head_dim,
            h,
            i,
            rows as int,
            |j: int| 0,
            factor,
            softmax,
        ),
{
    let n = rows as int;
    let d = head_dim;
    let width = heads * d;
    let oh = head_columns(out, n, heads, d, h);
    let qh = head_columns(q, n, heads, d, h);
    let kh = head_columns(k, n, heads, d, h);
    let vh = head_columns(v, n, heads, d, h);
    assert(is_head_output(oh, qh, kh, vh, rows, d, factor, softmax));
    let (raw, scores, attn) = choose|raw: Seq<T>, scores: Seq<T>, attn: Seq<T>|
        #![trigger is_scaled(scores, raw, factor), is_softmax(attn, scores, n, n, softmax)]
        product_t_gives(qh, kh, n, d, n, raw) && is_scaled(scores, raw, factor) && is_softmax(
            attn,
            scores,
            n,
            n,
            softmax,
        ) && product_gives(attn, vh, n, n, d, oh);
    let (s, w) = (row_of(scores, n, i), row_of(attn, n, i));
    lemma_row_bounds(i, n, n);
    assert(0 <= n * d) by (nonlinear_arith)
        requires
            0 <= n,
            0 < d,
    ;
    assert(row_becomes(softmax, s, w));
    assert forall|j: int| 0 <= j < n implies value(#[trigger] s[j]) == value(factor) * total(
        |e: int| value(q[i * width + (h * d + e)]) * value(k[j * width + (h * d + e)]),
        d,
    ) by {
        lemma_product_t(value, qh, kh, n, d, n, raw, i, j);
        let f = |l: int| value(qh[i * d + l]) * value(kh[j * d + l]);
        let g = |e: int| value(q[i * width + (h * d + e)]) * value(k[j * width + (h * d + e)]);
        assert forall|e: int| 0 <= e < d implies #[trigger] f(e) == g(e) by {
            lemma_head_element(q, n, heads, d, h, i, e);
            lemma_head_element(k, n, heads, d, h, j, e);
        }
        lemma_total_eq(f, g, d);
        lemma_cell_index(i, j, n, n);
        assert(multiplies_to(raw[i * n + j], factor, scores[i * n + j]));
        let sum = total(g, d);
        assert(sum * value(factor) == value(factor) * sum) by (nonlinear_arith);
    }
    assert forall|c: int| 0 <= c < d implies value(#[trigger] out[i * width + (h * d + c)]) == total(
        |j: int| value(w[j]) * value(v[j * width + (h * d + c)]),
        n,
    ) by {
        lemma_product(value, attn, vh, n, n, d, oh, i, c);
        let f = |l: int| value(attn[i * n + l]) * value(vh[l * d + c]);
        let g = |j: int| value(w[j]) * value(v[j * width + (h * d + c)]);
        assert forall|l: int| 0 <= l < n implies #[trigger] f(l) == g(l) by {
            lemma_head_element(v, n, heads, d, h, l, c);
        }
        lemma_total_eq(f, g, n);
        lemma_head_element(out, n, heads, d, h, i, c);
    }
}

/// Over a single score the softmax weighs it with one.
pub open spec fn weighs_single_with_one<T, S: Fn(&[T]) -> Vec<T>>(
    value: spec_fn(T) -> int,
    softmax: S,
) -> bool {
    forall|scores: Seq<T>, weights: Seq<T>| #[trigger]
        row_becomes(softmax, scores, weights) && scores.len() == 1 ==> value(weights[0]) == 1
}

/// A position that looks at a single position gets the value there, whatever
/// queries and keys are.
pub proof fn lemma_single_position<T, S: Fn(&[T]) -> Vec<T>>(
    value: spec_fn(T) -> int,
    out: Seq<T>,
    q: Seq<T>,
    k: Seq<T>,
    v: Seq<T>,
    width: int,
    head_dim: int,
    h: int,
    i: int,
    bias: spec_fn(int) -> int,
    factor: T,
    softmax: S,
    c: int,
)
    requires
        weighs_single_with_one(value, softmax),
        looks_at(value, out, q, k, v, width, head_dim, h, i, 1, bias, factor, softmax),
        0 <= c < head_dim,
    ensures
        value(out[i * width + (h * head_dim + c)]) == value(v[h * head_dim + c]),
{
    let (scores, weights) = choose|scores: Seq<T>, weights: Seq<T>| #[trigger]
        row_becomes(softmax, scores, weights) && scores.len() == 1 && weights.len() == 1 && (
        forall|j: int|
            0 <= j < 1 ==> value(#[trigger] scores[j]) == value(factor) * total(
                |d: int|
                    value(q[i * width + (h * head_dim + d)]) * value(
                        k[j * width + (h * head_dim + d)],
                    ),
                head_dim,
            ) + bias(j)) && forall|c: int|
            0 <= c < head_dim ==> value(#[trigger] out[i * width + (h * head_dim + c)]) == total(
                |j: int| value(weights[j]) * value(v[j * width + (h * head_dim + c)]),
                1,
            );
    let f = |j: int| value(weights[j]) * value(v[j * width + (h * head_dim + c)]);
    reveal_with_fuel(total, 2);
    assert(total(f, 1) == f(0));
    assert(0 * width == 0);
    let x = value(v[h * head_dim + c]);
    assert(1 * x == x);
    assert(value(out[i * width + (h * head_dim + c)]) == total(f, 1));
}

} // verus!
