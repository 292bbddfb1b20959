//! Multi-head self-attention and pooling helpers.
//!
//! Implementation choice: heads are processed in a loop rather than via batched
//! matmul. This keeps the code small and obvious; the per-head work is the
//! standard `softmax(Q K^T / sqrt(d)) V` pipeline.

pub mod meaning;
pub mod queries;

use vstd::prelude::*;
use core::ops::{Add, Mul};
use crate::num::{
    can_add, can_multiply, cell, is_zero, lemma_cell_index, lemma_row_bounds, lemma_row_of_index,
    lemma_sum_step, multiplies_to, plus, sum_gives, times,
};
use crate::ops::elementwise::scale;
use crate::ops::linear::{bias_fits, linear, linear_gives};
use crate::ops::matmul::{matmul, matmul_t_b, product_gives, product_t_gives};
use crate::ops::softmax::{is_row_softmax, is_softmax, softmax_rows};
use crate::tensor::{Tensor, lemma_product_1, lemma_product_2};

verus! {

/// The columns of head number `head` of a `[seq_len, num_heads * head_dim]`
/// matrix, as a `[seq_len, head_dim]` matrix.
pub open spec fn head_columns<T>(
    elems: Seq<T>,
    seq_len: int,
    num_heads: int,
    head_dim: int,
    head: int,
) -> Seq<T> {
    Seq::new(
        (seq_len * head_dim) as nat,
        |c: int|
            cell(elems, num_heads * head_dim, c / head_dim, head * head_dim + c % head_dim),
    )
}

/// The columns of a head lie inside the matrix.
proof fn lemma_head_index(
    t: int,
    j: int,
    seq_len: int,
    num_heads: int,
    head_dim: int,
    head: int,
)
    requires
        0 <= t < seq_len,
        0 <= j < head_dim,
        0 <= head < num_heads,
    ensures
        0 <= head * head_dim + j < num_heads * head_dim,
        (head * head_dim + j) / head_dim == head,
        (head * head_dim + j) % head_dim == j,
        0 <= t * (num_heads * head_dim) + (head * head_dim + j) < seq_len * (num_heads * head_dim),
        (t * (num_heads * head_dim) + (head * head_dim + j)) / (num_heads * head_dim) == t,
        (t * (num_heads * head_dim) + (head * head_dim + j)) % (num_heads * head_dim) == head
            * head_dim + j,
{
    lemma_cell_index(head, j, num_heads, head_dim);
    lemma_cell_index(t, head * head_dim + j, seq_len, num_heads * head_dim);
}

/// A hidden size that the heads divide evenly.
pub open spec fn heads_divide(hidden: usize, num_heads: usize) -> bool {
    num_heads > 0 && hidden % num_heads == 0
}

proof fn lemma_heads_divide(hidden: usize, num_heads: usize)
    requires
        heads_divide(hidden, num_heads),
    ensures
        num_heads * (hidden / num_heads) == hidden,
        hidden / num_heads <= hidden,
{
    assert(num_heads * (hidden / num_heads) == hidden && hidden / num_heads <= hidden)
        by (nonlinear_arith)
        requires
            num_heads > 0,
            hidden % num_heads == 0,
    ;
}

/// Extracts a single head's columns from a `[seq_len, hidden]` tensor.
/// Returns a `[seq_len, head_dim]` tensor.
pub fn extract_head<T: Copy>(x: &Tensor<T>, head_idx: usize, num_heads: usize) -> (res: Tensor<T>)
    requires
        x.wf(),
        x.dims().len() == 2,
        heads_divide(x.dims()[1], num_heads),
        head_idx < num_heads,
    ensures
        res.wf(),
        res.dims() == seq![x.dims()[0], (x.dims()[1] / num_heads)],
        res.elems() == head_columns(
            x.elems(),
            x.dims()[0] as int,
            num_heads as int,
            (x.dims()[1] / num_heads) as int,
            head_idx as int,
        ),
{
    let shape = *x.shape();
    let seq_len: usize = shape.as_slice()[0];
    let hidden: usize = shape.as_slice()[1];
    let head_dim: usize = hidden / num_heads;
    let src = x.data();
    let _len: usize = src.len();
    proof {
        lemma_product_2(x.dims());
        lemma_heads_divide(hidden, num_heads);
        assert(seq_len * head_dim <= seq_len * hidden) by (nonlinear_arith)
            requires
                head_dim <= hidden,
        ;
    }
    let n: usize = seq_len * head_dim;
    let mut out: Vec<T> = Vec::new();
    let mut c: usize = 0;
    let ghost wanted = head_columns(
        src@,
        seq_len as int,
        num_heads as int,
        head_dim as int,
        head_idx as int,
    );
    while c < n
        invariant
            c <= n,
            n == seq_len * head_dim,
            hidden == num_heads * head_dim,
            head_idx < num_heads,
            src@.len() == seq_len * hidden,
            seq_len * hidden <= usize::MAX,
            wanted == head_columns(
                src@,
                seq_len as int,
                num_heads as int,
                head_dim as int,
                head_idx as int,
            ),
            out@ == wanted.take(c as int),
        decreases n - c,
    {
        proof {
            lemma_row_of_index(c as int, seq_len as int, head_dim as int);
            lemma_head_index(
                c as int / head_dim as int,
                c as int % head_dim as int,
                seq_len as int,
                num_heads as int,
                head_dim as int,
                head_idx as int,
            );
            lemma_row_bounds(head_idx as int, num_heads as int, head_dim as int);
            lemma_row_bounds(c as int / head_dim as int, seq_len as int, hidden as int);
        }
        let t: usize = c / head_dim;
        let j: usize = c % head_dim;
        out.push(src[t * hidden + (head_idx * head_dim + j)]);
        c = c + 1;
        assert(wanted.take(c as int) =~= wanted.take(c - 1).push(wanted[c - 1]));
    }
    proof {
        assert(wanted.take(n as int) =~= wanted);
        lemma_product_2(seq![seq_len, head_dim]);
    }
    Tensor::from_vec(out, &[seq_len, head_dim])
}

/// Position `p` of a `[.., num_heads * head_dim]` matrix lies in the columns of
/// head number `head`.
pub open spec fn in_head(p: int, num_heads: int, head_dim: int, head: int) -> bool {
    (p % (num_heads * head_dim)) / head_dim == head
}

/// `after` is `before` with the columns of one head replaced by `part`.
pub open spec fn head_replaced<T>(
    after: Seq<T>,
    before: Seq<T>,
    part: Seq<T>,
    seq_len: int,
    num_heads: int,
    head_dim: int,
    head: int,
) -> bool {
    &&& after.len() == before.len()
    &&& forall|p: int|
        0 <= p < seq_len * (num_heads * head_dim) ==> #[trigger] after[p] == if in_head(
            p,
            num_heads,
            head_dim,
            head,
        ) {
            cell(
                part,
                head_dim,
                p / (num_heads * head_dim),
                (p % (num_heads * head_dim)) % head_dim,
            )
        } else {
            before[p]
        }
    &&& forall|p: int|
        seq_len * (num_heads * head_dim) <= p < after.len() ==> #[trigger] after[p] == before[p]
}

/// Writes a per-head result `[seq_len, head_dim]` back into the correct
/// columns of a `[seq_len, hidden]` flat buffer.
pub fn write_head_back<T: Copy>(
    dst: &mut Vec<T>,
    head_result: &Tensor<T>,
    head_idx: usize,
    num_heads: usize,
)
    requires
        head_result.wf(),
        head_result.dims().len() == 2,
        head_idx < num_heads,
        head_result.dims()[0] * (num_heads * head_result.dims()[1]) <= old(dst)@.len(),
    ensures
        head_replaced(
            final(dst)@,
            old(dst)@,
            head_result.elems(),
            head_result.dims()[0] as int,
            num_heads as int,
            head_result.dims()[1] as int,
            head_idx as int,
        ),
{
    let shape = *head_result.shape();
    let seq_len: usize = shape.as_slice()[0];
    let head_dim: usize = shape.as_slice()[1];
    let src = head_result.data();
    let n: usize = src.len();
    let len: usize = dst.len();
    let ghost hidden = num_heads * head_dim;
    proof {
        lemma_product_2(head_result.dims());
    }
    if n == 0 {
        proof {
            assert(seq_len * hidden == 0) by (nonlinear_arith)
                requires
                    seq_len * head_dim == 0,
                    hidden == num_heads * head_dim,
            ;
        }
        return ;
    }
    proof {
        assert(hidden <= len && head_dim > 0) by (nonlinear_arith)
            requires
                seq_len * head_dim > 0,
                hidden == num_heads * head_dim,
                seq_len * hidden <= len,
                num_heads > 0,
        ;
    }
    let width: usize = num_heads * head_dim;
    let mut c: usize = 0;
    while c < n
        invariant
            c <= n,
            n == src@.len(),
            n == seq_len * head_dim,
            width == num_heads * head_dim,
            head_dim > 0,
            head_idx < num_heads,
            len == dst@.len(),
            len == old(dst)@.len(),
            seq_len * width <= len,
            forall|p: int|
                0 <= p < seq_len * width ==> #[trigger] dst@[p] == if in_head(
                    p,
                    num_heads as int,
                    head_dim as int,
                    head_idx as int,
                ) && (p / (width as int)) * head_dim + (p % (width as int)) % (head_dim as int) < c {
                    cell(
                        src@,
                        head_dim as int,
                        p / width as int,
                        (p % width as int) % head_dim as int,
                    )
                } else {
                    old(dst)@[p]
                },
            forall|p: int| seq_len * width <= p < len ==> #[trigger] dst@[p] == old(dst)@[p],
        decreases n - c,
    {
        let ghost before = dst@;
        proof {
            lemma_row_of_index(c as int, seq_len as int, head_dim as int);
            lemma_head_index(
                c as int / head_dim as int,
                c as int % head_dim as int,
                seq_len as int,
                num_heads as int,
                head_dim as int,
                head_idx as int,
            );
            lemma_row_bounds(head_idx as int, num_heads as int, head_dim as int);
            lemma_row_bounds(c as int / head_dim as int, seq_len as int, width as int);
        }
        let t: usize = c / head_dim;
        let j: usize = c % head_dim;
        let at: usize = t * width + (head_idx * head_dim + j);
        dst.set(at, src[c]);
        proof {
            assert forall|p: int| 0 <= p < seq_len * width implies #[trigger] dst@[p] == if in_head(
                p,
                num_heads as int,
                head_dim as int,
                head_idx as int,
            ) && (p / (width as int)) * head_dim + (p % (width as int)) % (head_dim as int) < c + 1 {
                cell(src@, head_dim as int, p / width as int, (p % width as int) % head_dim as int)
            } else {
                old(dst)@[p]
            } by {
                if p != at && in_head(p, num_heads as int, head_dim as int, head_idx as int) {
                    lemma_row_of_index(p, seq_len as int, width as int);
                    lemma_row_of_index(p % width as int, num_heads as int, head_dim as int);
                    let row = p / width as int;
                    let col = (p % width as int) % head_dim as int;
                    if row * head_dim + col == c {
                        lemma_cell_index(row, col, seq_len as int, head_dim as int);
                        assert(p == at);
                    }
                }
                assert(p != at ==> dst@[p] == before[p]);
            }
        }
        c = c + 1;
    }
    proof {
        assert forall|p: int| 0 <= p < seq_len * width implies #[trigger] dst@[p] == if in_head(
            p,
            num_heads as int,
            head_dim as int,
            head_idx as int,
        ) {
            cell(src@, head_dim as int, p / width as int, (p % width as int) % head_dim as int)
        } else {
            old(dst)@[p]
        } by {
            lemma_row_of_index(p, seq_len as int, width as int);
            lemma_row_of_index(p % width as int, num_heads as int, head_dim as int);
            lemma_cell_index(
                p / width as int,
                (p % width as int) % head_dim as int,
                seq_len as int,
                head_dim as int,
            );
        }
    }
}

/// Writing a head back and extracting it again gives the head; the other heads
/// stay as they were.
pub proof fn lemma_head_round_trip<T>(
    after: Seq<T>,
    before: Seq<T>,
    part: Seq<T>,
    seq_len: int,
    num_heads: int,
    head_dim: int,
    head: int,
    other: int,
)
    requires
        0 <= seq_len,
        0 <= head_dim,
        0 <= head < num_heads,
        0 <= other < num_heads,
        part.len() == seq_len * head_dim,
        head_replaced(after, before, part, seq_len, num_heads, head_dim, head),
        seq_len * (num_heads * head_dim) <= before.len(),
    ensures
        head_columns(after, seq_len, num_heads, head_dim, head) == part,
        other != head ==> head_columns(after, seq_len, num_heads, head_dim, other) == head_columns(
            before,
            seq_len,
            num_heads,
            head_dim,
            other,
        ),
{
    let hidden = num_heads * head_dim;
    assert forall|c: int, h: int|
        0 <= c < seq_len * head_dim && 0 <= h < num_heads implies #[trigger] head_columns(
        after,
        seq_len,
        num_heads,
        head_dim,
        h,
    )[c] == if h == head {
        part[c]
    } else {
        head_columns(before, seq_len, num_heads, head_dim, h)[c]
    } by {
        lemma_row_of_index(c, seq_len, head_dim);
        lemma_head_index(c / head_dim, c % head_dim, seq_len, num_heads, head_dim, h);
        let p = (c / head_dim) * hidden + (h * head_dim + c % head_dim);
        assert(after[p] == after[p]);
    }
    assert(head_columns(after, seq_len, num_heads, head_dim, head) =~= part);
    if other != head {
        assert(head_columns(after, seq_len, num_heads, head_dim, other) =~= head_columns(
            before,
            seq_len,
            num_heads,
            head_dim,
            other,
        ));
    }
}

/// The heads make up the matrix: extracting every head and writing all of them
/// back gives the matrix again.
pub proof fn lemma_heads_make_up_matrix<T>(
    x: Seq<T>,
    rebuilt: Seq<T>,
    seq_len: int,
    num_heads: int,
    head_dim: int,
)
    requires
        0 <= seq_len,
        0 < num_heads,
        0 <= head_dim,
        x.len() == seq_len * (num_heads * head_dim),
        rebuilt.len() == x.len(),
        forall|h: int|
            0 <= h < num_heads ==> #[trigger] head_columns(
                rebuilt,
                seq_len,
                num_heads,
                head_dim,
                h,
            ) == head_columns(x, seq_len, num_heads, head_dim, h),
    ensures
        rebuilt == x,
{
    let hidden = num_heads * head_dim;
    assert forall|p: int| 0 <= p < x.len() implies #[trigger] rebuilt[p] == x[p] by {
        lemma_row_bounds(num_heads - 1, num_heads, head_dim);
        lemma_row_of_index(p, seq_len, hidden);
        lemma_row_of_index(p % hidden, num_heads, head_dim);
        let h = (p % hidden) / head_dim;
        let c = (p / hidden) * head_dim + (p % hidden) % head_dim;
        lemma_cell_index(p / hidden, (p % hidden) % head_dim, seq_len, head_dim);
        assert(head_columns(rebuilt, seq_len, num_heads, head_dim, h)[c] == rebuilt[p]);
        assert(head_columns(x, seq_len, num_heads, head_dim, h)[c] == x[p]);
    }
    assert(rebuilt =~= x);
}

// ---------------------------------------------------------------------------
// Attention
// ---------------------------------------------------------------------------

/// `out` is what one head may make of its queries, keys and values:
/// `softmax(Q K^T * factor) V`.
pub open spec fn is_head_output<
    T: Default + Add<Output = T> + Mul<Output = T>,
    S: Fn(&[T]) -> Vec<T>,
>(
    out: Seq<T>,
    q: Seq<T>,
    k: Seq<T>,
    v: Seq<T>,
    seq_len: usize,
    head_dim: int,
    factor: T,
    softmax: S,
) -> bool {
    let n = seq_len as int;
    exists|raw: Seq<T>, scores: Seq<T>, attn: Seq<T>|
        #![trigger is_scaled(scores, raw, factor), is_softmax(attn, scores, n, n, softmax)]
        product_t_gives(q, k, n, head_dim, n, raw) && is_scaled(scores, raw, factor) && is_softmax(
            attn,
            scores,
            n,
            n,
            softmax,
        ) && product_gives(attn, v, n, n, head_dim, out)
}

/// Each element of `out` is the element of `x` there times `factor`.
pub open spec fn is_scaled<T: Mul<Output = T>>(out: Seq<T>, x: Seq<T>, factor: T) -> bool {
    &&& out.len() == x.len()
    &&& forall|i: int| 0 <= i < out.len() ==> multiplies_to(x[i], factor, #[trigger] out[i])
}

/// The columns of every head of `out` are what the head may make of its
/// columns of `q`, `k` and `v`.
pub open spec fn is_attention<
    T: Default + Add<Output = T> + Mul<Output = T>,
    S: Fn(&[T]) -> Vec<T>,
>(
    out: Seq<T>,
    q: Seq<T>,
    k: Seq<T>,
    v: Seq<T>,
    seq_len: usize,
    num_heads: int,
    head_dim: int,
    factor: T,
    softmax: S,
) -> bool {
    &&& out.len() == seq_len * (num_heads * head_dim)
    &&& forall|h: int|
        0 <= h < num_heads ==> is_head_output(
            #[trigger] head_columns(out, seq_len as int, num_heads, head_dim, h),
            head_columns(q, seq_len as int, num_heads, head_dim, h),
            head_columns(k, seq_len as int, num_heads, head_dim, h),
            head_columns(v, seq_len as int, num_heads, head_dim, h),
            seq_len,
            head_dim,
            factor,
            softmax,
        )
}

/// The work of one head.
fn attend_head<
    T: Copy + Default + Add<Output = T> + Mul<Output = T>,
    S: Fn(&[T]) -> Vec<T>,
>(
    q: &Tensor<T>,
    k: &Tensor<T>,
    v: &Tensor<T>,
    factor: T,
    softmax: &S,
) -> (res: Tensor<T>)
    requires
        q.wf(),
        k.wf(),
        v.wf(),
        q.dims().len() == 2,
        k.dims() == q.dims(),
        v.dims() == q.dims(),
        q.dims()[0] > 0,
        q.dims()[0] * q.dims()[0] <= usize::MAX,
        can_add::<T>(),
        can_multiply::<T>(),
        is_row_softmax(*softmax),
    ensures
        res.wf(),
        res.dims() == q.dims(),
        is_head_output(
            res.elems(),
            q.elems(),
            k.elems(),
            v.elems(),
            q.dims()[0],
            q.dims()[1] as int,
            factor,
            *softmax,
        ),
{
    proof {
        lemma_product_2(q.dims());
    }
    // scores = Q_h @ K_h^T / sqrt(head_dim)
    let raw = matmul_t_b(q, k);
    let scores = scale(&raw, factor);
    assert(is_scaled(scores.elems(), raw.elems(), factor));
    let attn = softmax_rows(&scores, softmax);
    proof {
        lemma_product_1(scores.dims().drop_last());
    }
    let res = matmul(&attn, v);
    assert(res.dims() =~= q.dims());
    res
}

/// Computes scaled dot-product multi-head attention from precomputed Q/K/V.
///
/// - `q`, `k`, `v`: shape `[seq_len, hidden]`
/// - `num_heads`: must divide `hidden` evenly
/// - `factor`: what the scores are scaled by
/// - `softmax`: turns a row of scores into weights
/// - returned tensor shape: `[seq_len, hidden]`
pub fn multi_head_attention_from_qkv<
    T: Copy + Default + Add<Output = T> + Mul<Output = T>,
    S: Fn(&[T]) -> Vec<T>,
>(
    q: &Tensor<T>,
    k: &Tensor<T>,
    v: &Tensor<T>,
    num_heads: usize,
    factor: T,
    softmax: &S,
) -> (res: Tensor<T>)
    requires
        q.wf(),
        k.wf(),
        v.wf(),
        q.dims().len() == 2,
        k.dims() == q.dims(),
        v.dims() == q.dims(),
        heads_divide(q.dims()[1], num_heads),
        q.dims()[0] > 0,
        q.dims()[0] * q.dims()[0] <= usize::MAX,
        can_add::<T>(),
        can_multiply::<T>(),
        is_row_softmax(*softmax),
    ensures
        res.wf(),
        res.dims() == q.dims(),
        is_attention(
            res.elems(),
            q.elems(),
            k.elems(),
            v.elems(),
            q.dims()[0],
            num_heads as int,
            (q.dims()[1] / num_heads) as int,
            factor,
            *softmax,
        ),
{
    let shape = *q.shape();
    let seq_len: usize = shape.as_slice()[0];
    let hidden: usize = shape.as_slice()[1];
    let ghost head_dim = (hidden / num_heads) as int;
    proof {
        lemma_product_2(q.dims());
        lemma_heads_divide(hidden, num_heads);
    }
    let zero = T::default();
    let mut concat: Vec<T> = Vec::new();
    let n: usize = q.numel();
    while concat.len() < n
        invariant
            concat@.len() <= n,
        decreases n - concat@.len(),
    {
        concat.push(zero);
    }
    let mut h: usize = 0;
    while h < num_heads
        invariant
            h <= num_heads,
            q.wf(),
            k.wf(),
            v.wf(),
            q.dims().len() == 2,
            seq_len == q.dims()[0],
            hidden == q.dims()[1],
            k.dims() == q.dims(),
            v.dims() == q.dims(),
            heads_divide(hidden, num_heads),
            head_dim == hidden / num_heads,
            hidden == num_heads * head_dim,
            seq_len > 0,
            seq_len * seq_len <= usize::MAX,
            can_add::<T>(),
            can_multiply::<T>(),
            is_row_softmax(*softmax),
            n == seq_len * hidden,
            concat@.len() == n,
            forall|g: int|
                0 <= g < h ==> is_head_output(
                    #[trigger] head_columns(
                        concat@,
                        seq_len as int,
                        num_heads as int,
                        head_dim,
                        g,
                    ),
                    head_columns(q.elems(), seq_len as int, num_heads as int, head_dim, g),
                    head_columns(k.elems(), seq_len as int, num_heads as int, head_dim, g),
                    head_columns(v.elems(), seq_len as int, num_heads as int, head_dim, g),
                    seq_len,
                    head_dim,
                    factor,
                    *softmax,
                ),
        decreases num_heads - h,
    {
        let q_h = extract_head(q, h, num_heads);
        let k_h = extract_head(k, h, num_heads);
        let v_h = extract_head(v, h, num_heads);
        let head_out = attend_head(&q_h, &k_h, &v_h, factor, softmax);
        let ghost before = concat@;
        write_head_back(&mut concat, &head_out, h, num_heads);
        proof {
            lemma_product_2(head_out.dims());
            assert forall|g: int| 0 <= g < h + 1 implies is_head_output(
                #[trigger] head_columns(concat@, seq_len as int, num_heads as int, head_dim, g),
                head_columns(q.elems(), seq_len as int, num_heads as int, head_dim, g),
                head_columns(k.elems(), seq_len as int, num_heads as int, head_dim, g),
                head_columns(v.elems(), seq_len as int, num_heads as int, head_dim, g),
                seq_len,
                head_dim,
                factor,
                *softmax,
            ) by {
                lemma_head_round_trip(
                    concat@,
                    before,
                    head_out.elems(),
                    seq_len as int,
                    num_heads as int,
                    head_dim,
                    h as int,
                    g,
                );
            }
        }
        h = h + 1;
    }
    Tensor::from_vec(concat, shape.as_slice())
}

/// Multi-head self-attention with output projection.
///
/// All linear projections follow the PyTorch convention: weights are stored
/// as `[hidden, hidden]` with rows-as-outputs. The `linear` helper handles
/// the implicit transpose.
///
/// - `x`: input `[seq_len, hidden]`
/// - `wq`, `wk`, `wv`, `wo`: query / key / value / output projections
/// - `bq`, `bk`, `bv`, `bo`: optional biases (BERT uses all four)
/// - `num_heads`: must divide `hidden` evenly
/// - `factor`, `softmax`: see [`multi_head_attention_from_qkv`]
///
/// Returns a `[seq_len, hidden]` tensor.
pub fn multi_head_attention<
    T: Copy + Default + Add<Output = T> + Mul<Output = T>,
    S: Fn(&[T]) -> Vec<T>,
>(
    x: &Tensor<T>,
    wq: &Tensor<T>,
    bq: Option<&Tensor<T>>,
    wk: &Tensor<T>,
    bk: Option<&Tensor<T>>,
    wv: &Tensor<T>,
    bv: Option<&Tensor<T>>,
    wo: &Tensor<T>,
    bo: Option<&Tensor<T>>,
    num_heads: usize,
    factor: T,
    softmax: &S,
) -> (res: Tensor<T>)
    requires
        x.wf(),
        x.dims().len() == 2,
        heads_divide(x.dims()[1], num_heads),
        x.dims()[0] > 0,
        x.dims()[0] * x.dims()[0] <= usize::MAX,
        is_projection(wq, bq, x.dims()[1]),
        is_projection(wk, bk, x.dims()[1]),
        is_projection(wv, bv, x.dims()[1]),
        is_projection(wo, bo, x.dims()[1]),
        can_add::<T>(),
        can_multiply::<T>(),
        is_row_softmax(*softmax),
    ensures
        res.wf(),
        res.dims() == x.dims(),
        exists|q: Seq<T>, k: Seq<T>, v: Seq<T>, concat: Seq<T>|
            #![trigger is_attention(concat, q, k, v, x.dims()[0], num_heads as int, (x.dims()[1] / num_heads) as int, factor, *softmax)]
            linear_gives(x.elems(), x.dims()[0] as int, wq, bq, q) && linear_gives(
                x.elems(),
                x.dims()[0] as int,
                wk,
                bk,
                k,
            ) && linear_gives(x.elems(), x.dims()[0] as int, wv, bv, v) && is_attention(
                concat,
                q,
                k,
                v,
                x.dims()[0],
                num_heads as int,
                (x.dims()[1] / num_heads) as int,
                factor,
                *softmax,
            ) && linear_gives(concat, x.dims()[0] as int, wo, bo, res.elems()),
{
    proof {
        lemma_product_2(x.dims());
    }
    let ghost dims = x.dims();
    let q = linear(x, wq, bq);
    let k = linear(x, wk, bk);
    let v = linear(x, wv, bv);
    assert(q.dims() =~= dims);
    assert(k.dims() =~= dims);
    assert(v.dims() =~= dims);
    let concat = multi_head_attention_from_qkv(&q, &k, &v, num_heads, factor, softmax);
    let res = linear(&concat, wo, bo);
    assert(res.dims() =~= dims);
    res
}

/// A square projection of the hidden size, with its bias.
pub open spec fn is_projection<T>(w: &Tensor<T>, b: Option<&Tensor<T>>, hidden: usize) -> bool {
    &&& w.wf()
    &&& w.dims() == seq![hidden, hidden]
    &&& bias_fits(b, hidden)
}

// ---------------------------------------------------------------------------
// Pooling
// ---------------------------------------------------------------------------

/// Whether position `t` counts: it does unless a mask says zero.
pub open spec fn is_unmasked(mask: Option<&[u32]>, t: int) -> bool {
    mask matches Some(m) ==> m@[t] != 0
}

/// The elements of column `j` in the first `n` rows that count.
pub open spec fn unmasked_column<T>(
    elems: Seq<T>,
    hidden: int,
    mask: Option<&[u32]>,
    j: int,
    n: int,
) -> Seq<T>
    decreases n,
{
    if n <= 0 {
        Seq::empty()
    } else {
        let before = unmasked_column(elems, hidden, mask, j, n - 1);
        if is_unmasked(mask, n - 1) {
            before.push(cell(elems, hidden, n - 1, j))
        } else {
            before
        }
    }
}

/// How many of the first `n` positions count.
pub open spec fn unmasked_count(mask: Option<&[u32]>, n: int) -> nat
    decreases n,
{
    if n <= 0 {
        0
    } else {
        unmasked_count(mask, n - 1) + if is_unmasked(mask, n - 1) {
            1nat
        } else {
            0
        }
    }
}

/// A mask without zeros leaves nothing out: what is pooled under it is what is
/// pooled without a mask.
pub proof fn lemma_full_mask<T>(elems: Seq<T>, hidden: int, mask: &[u32], j: int, n: int)
    requires
        0 <= n <= mask@.len(),
        forall|t: int| 0 <= t < n ==> #[trigger] mask@[t] != 0,
    ensures
        unmasked_column(elems, hidden, Some(mask), j, n) == unmasked_column(
            elems,
            hidden,
            None,
            j,
            n,
        ),
        unmasked_count(Some(mask), n) == n,
        unmasked_count(None, n) == n,
    decreases n,
{
    if n > 0 {
        lemma_full_mask(elems, hidden, mask, j, n - 1);
        assert(mask@[n - 1] != 0);
    }
}

/// Positions that the mask leaves out have no influence: two matrices that agree
/// on the positions that count pool alike.
pub proof fn lemma_masked_positions_do_not_count<T>(
    a: Seq<T>,
    b: Seq<T>,
    hidden: int,
    mask: Option<&[u32]>,
    j: int,
    n: int,
)
    requires
        forall|t: int|
            0 <= t < n && is_unmasked(mask, t) ==> #[trigger] cell(a, hidden, t, j) == cell(
                b,
                hidden,
                t,
                j,
            ),
    ensures
        unmasked_column(a, hidden, mask, j, n) == unmasked_column(b, hidden, mask, j, n),
    decreases n,
{
    if n > 0 {
        lemma_masked_positions_do_not_count(a, b, hidden, mask, j, n - 1);
    }
}

/// Mean-pools a `[seq_len, hidden]` tensor along the sequence dimension.
///
/// If `attention_mask` is provided, masked positions (mask value `0`) are
/// excluded from both the sum and the divisor. This matches the
/// sentence-transformers mean-pooling convention. `reciprocal` gives one over
/// the number of positions that count.
///
/// Returns a `[hidden]` tensor.
pub fn mean_pool<
    T: Copy + Default + Add<Output = T> + Mul<Output = T>,
    R: Fn(usize) -> T,
>(x: &Tensor<T>, attention_mask: Option<&[u32]>, reciprocal: &R) -> (res: Tensor<T>)
    requires
        x.wf(),
        x.dims().len() == 2,
        attention_mask matches Some(m) ==> m@.len() == x.dims()[0],
        can_add::<T>(),
        can_multiply::<T>(),
        forall|n: usize| n > 0 ==> #[trigger] call_requires(*reciprocal, (n,)),
    ensures
        res.wf(),
        res.dims() == seq![x.dims()[1]],
        exists|sums: Seq<T>|
            #[trigger] pooled_sums(sums, x.elems(), x.dims(), attention_mask) && is_mean(
                res.elems(),
                sums,
                unmasked_count(attention_mask, x.dims()[0] as int),
                *reciprocal,
            ),
{
    let shape = *x.shape();
    let seq_len: usize = shape.as_slice()[0];
    let hidden: usize = shape.as_slice()[1];
    let data = x.data();
    let _len: usize = data.len();
    proof {
        lemma_product_2(x.dims());
        lemma_product_1(seq![hidden]);
    }
    let zero = T::default();
    let mut out: Vec<T> = Vec::new();
    while out.len() < hidden
        invariant
            out@.len() <= hidden,
            forall|j: int| 0 <= j < out@.len() ==> #[trigger] out@[j] == zero,
        decreases hidden - out@.len(),
    {
        out.push(zero);
    }
    let mut count: usize = 0;
    let mut t: usize = 0;
    while t < seq_len
        invariant
            t <= seq_len,
            count <= t,
            count == unmasked_count(attention_mask, t as int),
            data@ == x.elems(),
            data@.len() == seq_len * hidden,
            seq_len * hidden <= usize::MAX,
            attention_mask matches Some(m) ==> m@.len() == seq_len,
            can_add::<T>(),
            out@.len() == hidden,
            forall|j: int|
                0 <= j < hidden ==> sum_gives(
                    zero,
                    unmasked_column(data@, hidden as int, attention_mask, j, t as int),
                    #[trigger] out@[j],
                ),
        decreases seq_len - t,
    {
        let valid: bool = match attention_mask {
            Some(m) => m[t] != 0,
            None => true,
        };
        if valid {
            proof {
                lemma_row_bounds(t as int, seq_len as int, hidden as int);
            }
            let mut j: usize = 0;
            while j < hidden
                invariant
                    j <= hidden,
                    t < seq_len,
                    is_unmasked(attention_mask, t as int),
                    data@.len() == seq_len * hidden,
                    t * hidden + hidden <= seq_len * hidden <= usize::MAX,
                    can_add::<T>(),
                    out@.len() == hidden,
                    forall|c: int|
                        0 <= c < j ==> sum_gives(
                            zero,
                            unmasked_column(data@, hidden as int, attention_mask, c, t + 1),
                            #[trigger] out@[c],
                        ),
                    forall|c: int|
                        j <= c < hidden ==> sum_gives(
                            zero,
                            unmasked_column(data@, hidden as int, attention_mask, c, t as int),
                            #[trigger] out@[c],
                        ),
                decreases hidden - j,
            {
                let sum: T = out[j];
                let e: T = data[t * hidden + j];
                let next = plus(sum, e);
                proof {
                    lemma_sum_step(
                        zero,
                        unmasked_column(data@, hidden as int, attention_mask, j as int, t as int),
                        sum,
                        e,
                        next,
                    );
                }
                out.set(j, next);
                j = j + 1;
            }
            count = count + 1;
        }
        t = t + 1;
    }
    let ghost sums = out@;
    assert(is_zero(zero));
    assert(pooled_sums(sums, x.elems(), x.dims(), attention_mask));
    if count > 0 {
        let inv = reciprocal(count);
        let mut j: usize = 0;
        while j < hidden
            invariant
                j <= hidden,
                sums.len() == hidden,
                out@.len() == hidden,
                can_multiply::<T>(),
                forall|c: int| 0 <= c < j ==> multiplies_to(sums[c], inv, #[trigger] out@[c]),
                forall|c: int| j <= c < hidden ==> #[trigger] out@[c] == sums[c],
            decreases hidden - j,
        {
            let scaled = times(out[j], inv);
            out.set(j, scaled);
            j = j + 1;
        }
        assert(is_scaled(out@, sums, inv));
        proof {
            let shown = count as nat;
            assert(shown as usize == count);
            assert(call_ensures(*reciprocal, (shown as usize,), inv));
            assert(is_mean(out@, sums, shown, *reciprocal));
        }
    }
    let dims: [usize; 1] = [hidden];
    assert(dims@ =~= seq![hidden]);
    Tensor::from_vec(out, &dims)
}

/// The sums divided by the number of positions, or the sums themselves if there
/// are none.
pub open spec fn is_mean<T: Mul<Output = T>, R: Fn(usize) -> T>(
    out: Seq<T>,
    sums: Seq<T>,
    count: nat,
    reciprocal: R,
) -> bool {
    if count == 0 {
        out == sums
    } else {
        exists|inv: T|
            #[trigger] call_ensures(reciprocal, (count as usize,), inv) && is_scaled(
                out,
                sums,
                inv,
            )
    }
}

/// Each sum is that of the elements of its column that count.
pub open spec fn pooled_sums<T: Default + Add<Output = T>>(
    sums: Seq<T>,
    elems: Seq<T>,
    dims: Seq<usize>,
    mask: Option<&[u32]>,
) -> bool {
    &&& sums.len() == dims[1]
    &&& exists|zero: T|
        #[trigger] is_zero(zero) && forall|j: int|
            0 <= j < sums.len() ==> sum_gives(
                zero,
                unmasked_column(elems, dims[1] as int, mask, j, dims[0] as int),
                #[trigger] sums[j],
            )
}

} // verus!
