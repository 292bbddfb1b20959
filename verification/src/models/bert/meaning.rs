//! What a BERT encoder amounts to where elements compute without rounding.

use vstd::prelude::*;
use core::ops::{Add, Mul};
use crate::exact::{
    activates, at, is_exact, lemma_elementwise_sum, lemma_linear, lemma_lookup, lemma_normed_row,
    lemma_same_cells, lemma_same_mapped, lemma_same_normed, lemma_same_sum, lemma_sum,
    lemma_total_eq, lemma_total_zero, maps_to_one, normalizes_to_one, same_matrix, total,
};
use crate::models::bert::forward::{
    EmbeddingTrace, EncoderKernels, LayerTrace, embedding_gives, embeddings_give, forward_gives,
    is_pooled, is_weighted, kernels_fit, layer_fits, layer_gives, layer_may_give, layers_give,
    model_fits, segment_ids, sentence_embedding_gives,
};
use crate::models::bert::{BertConfig, BertLayer, BertModel, LinearWeight};
use crate::models::forward::{is_linear, is_vector, positions};
use crate::num::{is_zero, lemma_cell_index, lemma_row_of_index, multiplies_to, row_of, sum_gives};
use crate::ops::attention::meaning::{
    lemma_positions_look_at_all, lemma_single_position, looks_at, weighs_single_with_one,
};
use crate::ops::attention::{
    heads_divide, is_mean, is_scaled, is_unmasked, pooled_sums, unmasked_column, unmasked_count,
};
use crate::ops::layernorm::row_normalizes;
use crate::quant::meaning::{
    converts_exactly, lemma_linear_i8, lemma_linear_u8, weight_i8, weight_u8,
};
use crate::tensor::{Tensor, lemma_product_2, product};

verus! {

/// The weight in row `o` and column `l`, in whatever precision it is stored.
pub open spec fn weight_at<T>(
    value: spec_fn(T) -> int,
    weight: LinearWeight<T>,
    o: int,
    l: int,
) -> int {
    match weight {
        LinearWeight::F32(w) => at(value, w, o, l),
        LinearWeight::I8(w) => weight_i8(value, w, o, l),
        LinearWeight::U8(w) => weight_u8(value, w, o, l),
    }
}

/// A row of a matrix times row `o` of a weight, plus the offset.
pub open spec fn projected<T>(
    value: spec_fn(T) -> int,
    x: Tensor<T>,
    i: int,
    weight: LinearWeight<T>,
    bias: Tensor<T>,
    o: int,
) -> int {
    total(|l: int| at(value, x, i, l) * weight_at(value, weight, o, l), weight.dims()[1] as int)
        + value(bias.elems()[o])
}

/// A weight with `m` rows and `n` columns, all of which are stored, and an offset
/// for each row.
pub open spec fn projects<T>(weight: LinearWeight<T>, bias: Tensor<T>, m: usize, n: usize) -> bool {
    &&& weight.is_shaped(m, n)
    &&& weight matches LinearWeight::U8(w) ==> w.values().len() == product(w.dims())
    &&& is_vector(bias, m)
}

/// `y = x @ W^T + b`, in the precision of `W`.
pub proof fn lemma_weighted<T: Default + From<i8> + From<i16> + Add<Output = T> + Mul<Output = T>>(
    value: spec_fn(T) -> int,
    out: Tensor<T>,
    x: Tensor<T>,
    weight: LinearWeight<T>,
    bias: Tensor<T>,
    i: int,
    o: int,
)
    requires
        is_exact(value),
        converts_exactly(value),
        is_weighted(out, x, weight, bias),
        x.wf(),
        x.dims().len() == 2,
        projects(weight, bias, weight.dims()[0], x.dims()[1]),
        0 <= i < x.dims()[0],
        0 <= o < weight.dims()[0],
    ensures
        at(value, out, i, o) == projected(value, x, i, weight, bias, o),
{
    let k = x.dims()[1] as int;
    let f = |l: int| at(value, x, i, l) * weight_at(value, weight, o, l);
    match weight {
        LinearWeight::F32(w) => {
            assert(is_linear(out, x, w, Some(&bias)));
            lemma_linear(value, out, x, w, Some(&bias), i, o);
            lemma_total_eq(|l: int| at(value, x, i, l) * at(value, w, o, l), f, k);
        },
        LinearWeight::I8(w) => {
            lemma_linear_i8(value, out.elems(), x, w, bias, i, o);
            lemma_total_eq(|l: int| at(value, x, i, l) * weight_i8(value, w, o, l), f, k);
        },
        LinearWeight::U8(w) => {
            lemma_linear_u8(value, out.elems(), x, w, bias, i, o);
            lemma_total_eq(|l: int| at(value, x, i, l) * weight_u8(value, w, o, l), f, k);
        },
    }
}

/// A layer and an input that fits it.
pub open spec fn layer_takes<T>(x: Tensor<T>, layer: BertLayer<T>, config: BertConfig<T>) -> bool {
    let hidden = x.dims()[1];
    let s = layer.attention.self_attn;
    let a = layer.attention;
    let f = layer.ffn;
    let wide = f.b_inter.dims()[0];
    &&& x.wf()
    &&& x.dims().len() == 2
    &&& hidden > 0
    &&& layer_fits(layer, hidden)
    &&& projects(s.wq, s.bq, hidden, hidden)
    &&& projects(s.wk, s.bk, hidden, hidden)
    &&& projects(s.wv, s.bv, hidden, hidden)
    &&& projects(a.wo, a.bo, hidden, hidden)
    &&& projects(f.w_inter, f.b_inter, wide, hidden)
    &&& projects(f.w_out, f.b_out, hidden, wide)
    &&& heads_divide(hidden, config.num_attention_heads)
}

/// Queries, keys and values are the input times the weights for each, and every
/// position of every head looks at all positions.
pub proof fn lemma_layer_attends<
    T: Default + From<i8> + From<i16> + Add<Output = T> + Mul<Output = T>,
    N: Fn(&[T], &[T], &[T], T) -> Vec<T>,
    S: Fn(&[T]) -> Vec<T>,
    G: Fn(T) -> T,
    A: Fn(usize) -> T,
>(
    value: spec_fn(T) -> int,
    out: Tensor<T>,
    x: Tensor<T>,
    layer: BertLayer<T>,
    config: BertConfig<T>,
    kernels: EncoderKernels<N, S, G, A>,
    t: LayerTrace<T>,
    i: int,
    h: int,
    c: int,
)
    requires
        is_exact(value),
        converts_exactly(value),
        kernels_fit(kernels),
        layer_takes(x, layer, config),
        layer_gives(out, x, layer, config, kernels, t),
        0 <= i < x.dims()[0],
        0 <= h < config.num_attention_heads,
        0 <= c < x.dims()[1],
    ensures
        at(value, t.q, i, c) == projected(
            value,
            x,
            i,
            layer.attention.self_attn.wq,
            layer.attention.self_attn.bq,
            c,
        ),
        at(value, t.k, i, c) == projected(
            value,
            x,
            i,
            layer.attention.self_attn.wk,
            layer.attention.self_attn.bk,
            c,
        ),
        at(value, t.v, i, c) == projected(
            value,
            x,
            i,
            layer.attention.self_attn.wv,
            layer.attention.self_attn.bv,
            c,
        ),
        call_ensures(
            kernels.score_factor,
            ((x.dims()[1] / config.num_attention_heads),),
            t.factor,
        ),
        t.heads.dims() == x.dims(),
        looks_at(
            value,
            t.heads.elems(),
            t.q.elems(),
            t.k.elems(),
            t.v.elems(),
            x.dims()[1] as int,
            (x.dims()[1] / config.num_attention_heads) as int,
            h,
            i,
            x.dims()[0] as int,
            |j: int| 0,
            t.factor,
            kernels.softmax,
        ),
{
    let s = layer.attention.self_attn;
    let hidden = x.dims()[1] as int;
    let heads = config.num_attention_heads as int;
    let d = (x.dims()[1] / config.num_attention_heads) as int;
    lemma_weighted(value, t.q, x, s.wq, s.bq, i, c);
    lemma_weighted(value, t.k, x, s.wk, s.bk, i, c);
    lemma_weighted(value, t.v, x, s.wv, s.bv, i, c);
    assert(t.heads.dims() =~= x.dims());
    lemma_width(x.dims()[1], config.num_attention_heads);
    lemma_positions_look_at_all(
        value,
        t.heads.elems(),
        t.q.elems(),
        t.k.elems(),
        t.v.elems(),
        x.dims()[0],
        heads,
        d,
        t.factor,
        kernels.softmax,
        h,
        i,
    );
}

proof fn lemma_width(hidden: usize, heads: usize)
    requires
        hidden > 0,
        heads_divide(hidden, heads),
    ensures
        heads * (hidden / heads) == hidden,
        hidden / heads > 0,
{
    assert(heads * (hidden / heads) == hidden && hidden / heads > 0) by (nonlinear_arith)
        requires
            hidden > 0,
            heads > 0,
            hidden % heads == 0,
    ;
}

/// A layer adds to its input what attention gives, projected, and normalizes; to
/// that it adds what the feed-forward block makes of it, projected, and
/// normalizes again.
pub proof fn lemma_layer_adds<
    T: Default + From<i8> + From<i16> + Add<Output = T> + Mul<Output = T>,
    N: Fn(&[T], &[T], &[T], T) -> Vec<T>,
    S: Fn(&[T]) -> Vec<T>,
    G: Fn(T) -> T,
    A: Fn(usize) -> T,
>(
    value: spec_fn(T) -> int,
    out: Tensor<T>,
    x: Tensor<T>,
    layer: BertLayer<T>,
    config: BertConfig<T>,
    kernels: EncoderKernels<N, S, G, A>,
    t: LayerTrace<T>,
    i: int,
    o: int,
    f: int,
)
    requires
        is_exact(value),
        converts_exactly(value),
        layer_takes(x, layer, config),
        layer_gives(out, x, layer, config, kernels, t),
        0 <= i < x.dims()[0],
        0 <= o < x.dims()[1],
        0 <= f < layer.ffn.b_inter.dims()[0],
    ensures
        out.dims() == x.dims(),
        at(value, t.attn_sum, i, o) == at(value, x, i, o) + projected(
            value,
            t.heads,
            i,
            layer.attention.wo,
            layer.attention.bo,
            o,
        ),
        row_normalizes(
            kernels.norm,
            row_of(t.attn_sum.elems(), x.dims()[1] as int, i),
            layer.attention.ln_gamma.elems(),
            layer.attention.ln_beta.elems(),
            config.layer_norm_eps,
            row_of(t.post_attn.elems(), x.dims()[1] as int, i),
        ),
        activates(
            value,
            kernels.activation,
            projected(value, t.post_attn, i, layer.ffn.w_inter, layer.ffn.b_inter, f),
            t.active.elems()[i * layer.ffn.b_inter.dims()[0] + f],
        ),
        at(value, t.ffn_sum, i, o) == at(value, t.post_attn, i, o) + projected(
            value,
            t.active,
            i,
            layer.ffn.w_out,
            layer.ffn.b_out,
            o,
        ),
        row_normalizes(
            kernels.norm,
            row_of(t.ffn_sum.elems(), x.dims()[1] as int, i),
            layer.ffn.ln_gamma.elems(),
            layer.ffn.ln_beta.elems(),
            config.layer_norm_eps,
            row_of(out.elems(), x.dims()[1] as int, i),
        ),
{
    let a = layer.attention;
    let m = layer.ffn;
    let wide = m.b_inter.dims()[0] as int;
    lemma_product_2(x.dims());
    assert(t.heads.dims() =~= x.dims());
    lemma_weighted(value, t.attn, t.heads, a.wo, a.bo, i, o);
    assert(t.attn.dims() =~= x.dims());
    lemma_elementwise_sum(value, t.attn_sum, x, t.attn, i, o);
    lemma_normed_row(
        t.post_attn,
        t.attn_sum,
        a.ln_gamma,
        a.ln_beta,
        config.layer_norm_eps,
        kernels.norm,
        i,
    );
    lemma_weighted(value, t.inter, t.post_attn, m.w_inter, m.b_inter, i, f);
    lemma_weighted(value, t.proj, t.active, m.w_out, m.b_out, i, o);
    assert(t.proj.dims() =~= x.dims());
    lemma_elementwise_sum(value, t.ffn_sum, t.post_attn, t.proj, i, o);
    lemma_normed_row(
        out,
        t.ffn_sum,
        m.ln_gamma,
        m.ln_beta,
        config.layer_norm_eps,
        kernels.norm,
        i,
    );
    lemma_product_2(t.inter.dims());
    lemma_cell_index(i, f, x.dims()[0] as int, wide);
    let p = i * wide + f;
    assert(call_ensures(kernels.activation, (t.inter.elems()[p],), t.active.elems()[p]));
}

/// Nothing is projected but zero.
pub open spec fn projects_to_zero<T>(
    value: spec_fn(T) -> int,
    weight: LinearWeight<T>,
    bias: Tensor<T>,
) -> bool {
    &&& forall|o: int, l: int|
        0 <= o < weight.dims()[0] && 0 <= l < weight.dims()[1] ==> #[trigger] weight_at(
            value,
            weight,
            o,
            l,
        ) == 0
    &&& forall|o: int|
        0 <= o < weight.dims()[0] ==> value(#[trigger] bias.elems()[o]) == 0
}

proof fn lemma_projected_zero<T>(
    value: spec_fn(T) -> int,
    x: Tensor<T>,
    i: int,
    weight: LinearWeight<T>,
    bias: Tensor<T>,
    o: int,
)
    requires
        projects_to_zero(value, weight, bias),
        0 <= o < weight.dims()[0],
    ensures
        projected(value, x, i, weight, bias, o) == 0,
{
    let f = |l: int| at(value, x, i, l) * weight_at(value, weight, o, l);
    assert forall|l: int| 0 <= l < weight.dims()[1] implies #[trigger] f(l) == 0 by {
        let y = at(value, x, i, l);
        assert(weight_at(value, weight, o, l) == 0);
        assert(y * 0 == 0) by (nonlinear_arith);
    }
    lemma_total_zero(f, weight.dims()[1] as int);
}

/// A layer that projects nothing but zero only normalizes, twice.
pub proof fn lemma_null_layer_normalizes_twice<
    T: Default + From<i8> + From<i16> + Add<Output = T> + Mul<Output = T>,
    N: Fn(&[T], &[T], &[T], T) -> Vec<T>,
    S: Fn(&[T]) -> Vec<T>,
    G: Fn(T) -> T,
    A: Fn(usize) -> T,
>(
    value: spec_fn(T) -> int,
    out: Tensor<T>,
    x: Tensor<T>,
    layer: BertLayer<T>,
    config: BertConfig<T>,
    kernels: EncoderKernels<N, S, G, A>,
    i: int,
)
    requires
        is_exact(value),
        converts_exactly(value),
        layer_takes(x, layer, config),
        layer_may_give(out, x, layer, config, kernels),
        projects_to_zero(value, layer.attention.wo, layer.attention.bo),
        projects_to_zero(value, layer.ffn.w_out, layer.ffn.b_out),
        0 <= i < x.dims()[0],
    ensures
        exists|once: Seq<T>| #[trigger]
            row_normalizes(
                kernels.norm,
                row_of(x.elems(), x.dims()[1] as int, i),
                layer.attention.ln_gamma.elems(),
                layer.attention.ln_beta.elems(),
                config.layer_norm_eps,
                once,
            ) && row_normalizes(
                kernels.norm,
                once,
                layer.ffn.ln_gamma.elems(),
                layer.ffn.ln_beta.elems(),
                config.layer_norm_eps,
                row_of(out.elems(), x.dims()[1] as int, i),
            ),
{
    let t = choose|t: LayerTrace<T>| #[trigger] layer_gives(out, x, layer, config, kernels, t);
    assert forall|r: int, o: int|
        0 <= r < x.dims()[0] && 0 <= o < x.dims()[1] implies #[trigger] at(
        value,
        t.attn_sum,
        r,
        o,
    ) == at(value, x, r, o) by {
        lemma_layer_adds(value, out, x, layer, config, kernels, t, r, o, 0);
        lemma_projected_zero(value, t.heads, r, layer.attention.wo, layer.attention.bo, o);
    }
    lemma_same_cells(value, t.attn_sum, x);
    assert forall|r: int, o: int|
        0 <= r < x.dims()[0] && 0 <= o < x.dims()[1] implies #[trigger] at(
        value,
        t.ffn_sum,
        r,
        o,
    ) == at(value, t.post_attn, r, o) by {
        lemma_layer_adds(value, out, x, layer, config, kernels, t, r, o, 0);
        lemma_projected_zero(value, t.active, r, layer.ffn.w_out, layer.ffn.b_out, o);
    }
    lemma_same_cells(value, t.ffn_sum, t.post_attn);
    lemma_layer_adds(value, out, x, layer, config, kernels, t, i, 0, 0);
    let once = row_of(t.post_attn.elems(), x.dims()[1] as int, i);
}

/// On a single token, the heads give the values: the input times the value weight,
/// plus its offset.
pub proof fn lemma_heads_of_single_token<
    T: Default + From<i8> + From<i16> + Add<Output = T> + Mul<Output = T>,
    N: Fn(&[T], &[T], &[T], T) -> Vec<T>,
    S: Fn(&[T]) -> Vec<T>,
    G: Fn(T) -> T,
    A: Fn(usize) -> T,
>(
    value: spec_fn(T) -> int,
    out: Tensor<T>,
    x: Tensor<T>,
    layer: BertLayer<T>,
    config: BertConfig<T>,
    kernels: EncoderKernels<N, S, G, A>,
    t: LayerTrace<T>,
    c: int,
)
    requires
        is_exact(value),
        converts_exactly(value),
        kernels_fit(kernels),
        weighs_single_with_one(value, kernels.softmax),
        layer_takes(x, layer, config),
        x.dims()[0] == 1,
        layer_gives(out, x, layer, config, kernels, t),
        0 <= c < x.dims()[1],
    ensures
        at(value, t.heads, 0, c) == projected(
            value,
            x,
            0,
            layer.attention.self_attn.wv,
            layer.attention.self_attn.bv,
            c,
        ),
{
    let hidden = x.dims()[1] as int;
    let heads = config.num_attention_heads as int;
    let d = (x.dims()[1] / config.num_attention_heads) as int;
    lemma_width(x.dims()[1], config.num_attention_heads);
    lemma_row_of_index(c, heads, d);
    let h = c / d;
    lemma_layer_attends(value, out, x, layer, config, kernels, t, 0, h, c);
    lemma_single_position(
        value,
        t.heads.elems(),
        t.q.elems(),
        t.k.elems(),
        t.v.elems(),
        hidden,
        d,
        h,
        0,
        |j: int| 0,
        t.factor,
        kernels.softmax,
        c % d,
    );
    assert(0 * hidden == 0);
}

/// Two layers that are the same but for the weights of queries and keys.
pub open spec fn same_but_for_queries_and_keys<T>(a: BertLayer<T>, b: BertLayer<T>) -> bool {
    &&& a.attention.self_attn.wv == b.attention.self_attn.wv
    &&& a.attention.self_attn.bv == b.attention.self_attn.bv
    &&& a.attention.wo == b.attention.wo
    &&& a.attention.bo == b.attention.bo
    &&& a.attention.ln_gamma == b.attention.ln_gamma
    &&& a.attention.ln_beta == b.attention.ln_beta
    &&& a.ffn == b.ffn
}

/// The same matrix times the same weight, plus the same offsets, is the same.
proof fn lemma_same_weighted<T: Default + From<i8> + From<i16> + Add<Output = T> + Mul<Output = T>>(
    value: spec_fn(T) -> int,
    out: Tensor<T>,
    x: Tensor<T>,
    out2: Tensor<T>,
    x2: Tensor<T>,
    weight: LinearWeight<T>,
    bias: Tensor<T>,
)
    requires
        is_exact(value),
        converts_exactly(value),
        is_weighted(out, x, weight, bias),
        is_weighted(out2, x2, weight, bias),
        same_matrix(x, x2),
        projects(weight, bias, weight.dims()[0], x.dims()[1]),
    ensures
        same_matrix(out, out2),
{
    assert forall|i: int, o: int|
        0 <= i < out.dims()[0] && 0 <= o < out.dims()[1] implies #[trigger] at(value, out, i, o)
        == at(value, out2, i, o) by {
        lemma_weighted(value, out, x, weight, bias, i, o);
        lemma_weighted(value, out2, x2, weight, bias, i, o);
        lemma_total_eq(
            |l: int| at(value, x, i, l) * weight_at(value, weight, o, l),
            |l: int| at(value, x2, i, l) * weight_at(value, weight, o, l),
            weight.dims()[1] as int,
        );
    }
    lemma_same_cells(value, out, out2);
}

/// Queries and keys say only how much each position counts: on a single token,
/// where there is nothing to choose from, they make no difference.
pub proof fn lemma_queries_and_keys_choose_positions<
    T: Default + From<i8> + From<i16> + Add<Output = T> + Mul<Output = T>,
    N: Fn(&[T], &[T], &[T], T) -> Vec<T>,
    S: Fn(&[T]) -> Vec<T>,
    G: Fn(T) -> T,
    A: Fn(usize) -> T,
>(
    value: spec_fn(T) -> int,
    out: Tensor<T>,
    other_out: Tensor<T>,
    x: Tensor<T>,
    layer: BertLayer<T>,
    other: BertLayer<T>,
    config: BertConfig<T>,
    kernels: EncoderKernels<N, S, G, A>,
)
    requires
        is_exact(value),
        converts_exactly(value),
        kernels_fit(kernels),
        weighs_single_with_one(value, kernels.softmax),
        normalizes_to_one(kernels.norm),
        maps_to_one(kernels.activation),
        layer_takes(x, layer, config),
        layer_takes(x, other, config),
        x.dims()[0] == 1,
        same_but_for_queries_and_keys(layer, other),
        layer_may_give(out, x, layer, config, kernels),
        layer_may_give(other_out, x, other, config, kernels),
    ensures
        same_matrix(out, other_out),
{
    let t = choose|t: LayerTrace<T>| #[trigger] layer_gives(out, x, layer, config, kernels, t);
    let u = choose|t: LayerTrace<T>| #[trigger]
        layer_gives(other_out, x, other, config, kernels, t);
    assert(same_matrix(x, x));
    assert(t.heads.dims() =~= x.dims());
    assert(u.heads.dims() =~= x.dims());
    assert forall|i: int, c: int|
        0 <= i < t.heads.dims()[0] && 0 <= c < t.heads.dims()[1] implies #[trigger] at(
        value,
        t.heads,
        i,
        c,
    ) == at(value, u.heads, i, c) by {
        lemma_heads_of_single_token(value, out, x, layer, config, kernels, t, c);
        lemma_heads_of_single_token(value, other_out, x, other, config, kernels, u, c);
    }
    lemma_same_cells(value, t.heads, u.heads);
    let a = layer.attention;
    let m = layer.ffn;
    lemma_same_weighted(value, t.attn, t.heads, u.attn, u.heads, a.wo, a.bo);
    assert(t.attn.dims() =~= x.dims());
    lemma_same_sum(value, t.attn_sum, x, t.attn, u.attn_sum, x, u.attn);
    lemma_same_normed(
        t.post_attn,
        t.attn_sum,
        u.post_attn,
        u.attn_sum,
        a.ln_gamma,
        a.ln_beta,
        config.layer_norm_eps,
        kernels.norm,
    );
    lemma_same_weighted(
        value,
        t.inter,
        t.post_attn,
        u.inter,
        u.post_attn,
        m.w_inter,
        m.b_inter,
    );
    lemma_same_mapped(t.active, t.inter, u.active, u.inter, kernels.activation);
    lemma_same_weighted(value, t.proj, t.active, u.proj, u.active, m.w_out, m.b_out);
    assert(t.proj.dims() =~= x.dims());
    lemma_same_sum(value, t.ffn_sum, t.post_attn, t.proj, u.ffn_sum, u.post_attn, u.proj);
    lemma_same_normed(
        out,
        t.ffn_sum,
        other_out,
        u.ffn_sum,
        m.ln_gamma,
        m.ln_beta,
        config.layer_norm_eps,
        kernels.norm,
    );
}

/// The encoder starts with word plus position plus segment, normalized: the sum for
/// position `i` is that of the embeddings of the token, of the position and of the
/// segment there. Without segments all are in segment zero. Every layer works on
/// the state that the one before left, and the last state is the result.
pub proof fn lemma_forward_is_a_chain<
    T: Default + From<i8> + From<i16> + Add<Output = T> + Mul<Output = T>,
    N: Fn(&[T], &[T], &[T], T) -> Vec<T>,
    S: Fn(&[T]) -> Vec<T>,
    G: Fn(T) -> T,
    A: Fn(usize) -> T,
>(
    value: spec_fn(T) -> int,
    out: Tensor<T>,
    model: BertModel<T>,
    ids: Seq<u32>,
    types: Option<&[u32]>,
    kernels: EncoderKernels<N, S, G, A>,
)
    requires
        is_exact(value),
        model_fits(model),
        0 < ids.len() <= u32::MAX,
        ids.len() <= usize::MAX,
        types matches Some(s) ==> s@.len() == ids.len(),
        forward_gives(out, model, ids, types, kernels),
    ensures
        exists|states: Seq<Tensor<T>>, sum: Tensor<T>|
            #![trigger states.len(), sum.dims()]
            states.len() == model.layers@.len() + 1 && sum.dims() == seq![
                ids.len() as usize,
                model.embeddings.word.dims()[1],
            ] && (forall|i: int, j: int|
                0 <= i < ids.len() && 0 <= j < model.embeddings.word.dims()[1] ==> #[trigger] at(
                    value,
                    sum,
                    i,
                    j,
                ) == at(value, model.embeddings.word, ids[i] as int, j) + at(
                    value,
                    model.embeddings.position,
                    i,
                    j,
                ) + at(
                    value,
                    model.embeddings.token_type,
                    match types {
                        Some(s) => s@[i] as int,
                        None => 0,
                    },
                    j,
                )) && (forall|i: int|
                0 <= i < ids.len() ==> row_normalizes(
                    kernels.norm,
                    row_of(sum.elems(), model.embeddings.word.dims()[1] as int, i),
                    model.embeddings.ln_gamma.elems(),
                    model.embeddings.ln_beta.elems(),
                    model.config.layer_norm_eps,
                    #[trigger] row_of(
                        states[0].elems(),
                        model.embeddings.word.dims()[1] as int,
                        i,
                    ),
                )) && (forall|i: int|
                0 <= i < model.layers@.len() ==> layer_may_give(
                    states[i + 1],
                    states[i],
                    #[trigger] model.layers@[i],
                    model.config,
                    kernels,
                )) && out == states[model.layers@.len() as int],
{
    let e = model.embeddings;
    let d = e.word.dims()[1] as int;
    let (states, t) = choose|states: Seq<Tensor<T>>, t: EmbeddingTrace<T>|
        #![trigger layers_give(states, model, kernels), embeddings_give(states[0], model, ids, types, kernels, t)]
        states.len() == model.layers@.len() + 1 && embeddings_give(
            states[0],
            model,
            ids,
            types,
            kernels,
            t,
        ) && layers_give(states, model, kernels) && out == states.last();
    let sum = t.three;
    let segments = segment_ids(types, ids.len());
    assert forall|i: int, j: int| 0 <= i < ids.len() && 0 <= j < d implies #[trigger] at(
        value,
        sum,
        i,
        j,
    ) == at(value, e.word, ids[i] as int, j) + at(value, e.position, i, j) + at(
        value,
        e.token_type,
        match types {
            Some(s) => s@[i] as int,
            None => 0,
        },
        j,
    ) by {
        lemma_lookup(value, t.word, ids, e.word, i, j);
        lemma_lookup(value, t.position, positions(ids.len()), e.position, i, j);
        lemma_lookup(value, t.token_type, segments, e.token_type, i, j);
        assert(t.word.dims() =~= t.position.dims());
        assert(t.word.dims() =~= t.token_type.dims());
        lemma_elementwise_sum(value, t.two, t.word, t.position, i, j);
        lemma_elementwise_sum(value, t.three, t.two, t.token_type, i, j);
    }
    assert forall|i: int| 0 <= i < ids.len() implies row_normalizes(
        kernels.norm,
        row_of(sum.elems(), d, i),
        e.ln_gamma.elems(),
        e.ln_beta.elems(),
        model.config.layer_norm_eps,
        #[trigger] row_of(states[0].elems(), d, i),
    ) by {
        lemma_normed_row(
            states[0],
            t.three,
            e.ln_gamma,
            e.ln_beta,
            model.config.layer_norm_eps,
            kernels.norm,
            i,
        );
    }
    assert(states.len() == model.layers@.len() + 1);
    assert(sum.dims() =~= seq![ids.len() as usize, e.word.dims()[1]]);
}

/// The sum of a column over the positions that count.
pub open spec fn counted<T>(
    value: spec_fn(T) -> int,
    x: Tensor<T>,
    mask: Option<&[u32]>,
    j: int,
    n: int,
) -> int {
    total(
        |i: int|
            if mask is Some && mask->0@[i] == 0 {
                0
            } else {
                at(value, x, i, j)
            },
        n,
    )
}

proof fn lemma_unmasked_sum<T: Default + Add<Output = T> + Mul<Output = T>>(
    value: spec_fn(T) -> int,
    x: Tensor<T>,
    mask: Option<&[u32]>,
    j: int,
    n: int,
)
    requires
        0 <= n,
    ensures
        ({
            let column = unmasked_column(x.elems(), x.dims()[1] as int, mask, j, n);
            total(|k: int| value(column[k]), column.len() as int) == counted(value, x, mask, j, n)
        }),
        unmasked_count(mask, n) == total(
            |i: int|
                if mask is Some && mask->0@[i] == 0 {
                    0
                } else {
                    1
                },
            n,
        ),
    decreases n,
{
    let column = unmasked_column(x.elems(), x.dims()[1] as int, mask, j, n);
    let f = |k: int| value(column[k]);
    if n > 0 {
        lemma_unmasked_sum(value, x, mask, j, n - 1);
        let before = unmasked_column(x.elems(), x.dims()[1] as int, mask, j, n - 1);
        let g = |k: int| value(before[k]);
        if is_unmasked(mask, n - 1) {
            lemma_total_eq(f, g, column.len() - 1);
        } else {
            assert(f =~= g);
        }
    }
}

/// A sentence embedding is the mean of the hidden states that count: each element
/// is the sum of the column over the positions whose mask is not zero, times the
/// reciprocal of their number.
pub proof fn lemma_embedding_is_the_mean<
    T: Default + From<i8> + From<i16> + Add<Output = T> + Mul<Output = T>,
    N: Fn(&[T], &[T], &[T], T) -> Vec<T>,
    S: Fn(&[T]) -> Vec<T>,
    G: Fn(T) -> T,
    A: Fn(usize) -> T,
    R: Fn(usize) -> T,
>(
    value: spec_fn(T) -> int,
    out: Tensor<T>,
    model: BertModel<T>,
    ids: Seq<u32>,
    types: Option<&[u32]>,
    mask: Option<&[u32]>,
    kernels: EncoderKernels<N, S, G, A>,
    reciprocal: R,
)
    requires
        is_exact(value),
        embedding_gives(out, model, ids, types, mask, kernels, reciprocal),
    ensures
        exists|hidden: Tensor<T>| #[trigger]
            forward_gives(hidden, model, ids, types, kernels) && ({
                let count = total(
                    |i: int|
                        if mask is Some && mask->0@[i] == 0 {
                            0
                        } else {
                            1
                        },
                    hidden.dims()[0] as int,
                );
                &&& count > 0 ==> exists|inv: T| #[trigger]
                    call_ensures(reciprocal, (count as usize,), inv) && forall|j: int|
                        0 <= j < hidden.dims()[1] ==> value(#[trigger] out.elems()[j]) == counted(
                            value,
                            hidden,
                            mask,
                            j,
                            hidden.dims()[0] as int,
                        ) * value(inv)
                &&& count == 0 ==> forall|j: int|
                    0 <= j < hidden.dims()[1] ==> value(#[trigger] out.elems()[j]) == 0
            }),
{
    let hidden = choose|hidden: Tensor<T>|
        forward_gives(hidden, model, ids, types, kernels) && #[trigger] is_pooled(
            out,
            hidden,
            mask,
            reciprocal,
        );
    let n = hidden.dims()[0] as int;
    let sums = choose|sums: Seq<T>| #[trigger]
        pooled_sums(sums, hidden.elems(), hidden.dims(), mask) && is_mean(
            out.elems(),
            sums,
            unmasked_count(mask, n),
            reciprocal,
        );
    let zero = choose|zero: T| #[trigger]
        is_zero(zero) && forall|j: int|
            0 <= j < sums.len() ==> sum_gives(
                zero,
                unmasked_column(hidden.elems(), hidden.dims()[1] as int, mask, j, n),
                #[trigger] sums[j],
            );
    assert forall|j: int| 0 <= j < hidden.dims()[1] implies value(#[trigger] sums[j]) == counted(
        value,
        hidden,
        mask,
        j,
        n,
    ) by {
        let column = unmasked_column(hidden.elems(), hidden.dims()[1] as int, mask, j, n);
        lemma_sum(value, zero, column, sums[j]);
        lemma_unmasked_sum(value, hidden, mask, j, n);
    }
    lemma_unmasked_sum(value, hidden, mask, 0, n);
    let count = unmasked_count(mask, n);
    if count > 0 {
        let inv = choose|inv: T| #[trigger]
            call_ensures(reciprocal, (count as usize,), inv) && is_scaled(out.elems(), sums, inv);
        assert forall|j: int| 0 <= j < hidden.dims()[1] implies value(#[trigger] out.elems()[j])
            == counted(value, hidden, mask, j, n) * value(inv) by {
            assert(multiplies_to(sums[j], inv, out.elems()[j]));
        }
    } else {
        assert forall|j: int| 0 <= j < hidden.dims()[1] implies value(#[trigger] out.elems()[j])
            == 0 by {
            let f = |i: int|
                if mask is Some && mask->0@[i] == 0 {
                    0
                } else {
                    at(value, hidden, i, j)
                };
            lemma_none_counted(mask, n);
            lemma_total_zero(f, n);
        }
    }
}

/// Where no position counts, every mask is zero.
proof fn lemma_none_counted(mask: Option<&[u32]>, n: int)
    requires
        0 <= n,
        unmasked_count(mask, n) == 0,
    ensures
        forall|i: int| 0 <= i < n ==> mask is Some && #[trigger] mask->0@[i] == 0,
    decreases n,
{
    if n > 0 {
        lemma_none_counted(mask, n - 1);
    }
}

/// The embedding of a sentence of real tokens is the mean of the hidden states of
/// all its positions, in one segment: each element is the sum of the column times
/// the reciprocal of the number of positions.
pub proof fn lemma_sentence_embedding_is_the_mean<
    T: Default + From<i8> + From<i16> + Add<Output = T> + Mul<Output = T>,
    N: Fn(&[T], &[T], &[T], T) -> Vec<T>,
    S: Fn(&[T]) -> Vec<T>,
    G: Fn(T) -> T,
    A: Fn(usize) -> T,
    R: Fn(usize) -> T,
>(
    value: spec_fn(T) -> int,
    out: Tensor<T>,
    model: BertModel<T>,
    ids: Seq<u32>,
    kernels: EncoderKernels<N, S, G, A>,
    reciprocal: R,
)
    requires
        is_exact(value),
        0 < ids.len() <= usize::MAX,
        sentence_embedding_gives(out, model, ids, kernels, reciprocal),
    ensures
        exists|hidden: Tensor<T>, inv: T|
            #![trigger hidden.dims(), call_ensures(reciprocal, (ids.len() as usize,), inv)]
            forward_gives(hidden, model, ids, None, kernels) && hidden.dims()[0] == ids.len()
                && call_ensures(reciprocal, (ids.len() as usize,), inv) && forall|j: int|
                0 <= j < hidden.dims()[1] ==> value(#[trigger] out.elems()[j]) == total(
                    |i: int| at(value, hidden, i, j),
                    ids.len() as int,
                ) * value(inv),
{
    let (types, mask) = choose|types: &[u32], mask: &[u32]|
        types@ == Seq::new(ids.len(), |i: int| 0u32) && mask@ == Seq::new(ids.len(), |i: int| 1u32)
            && #[trigger] embedding_gives(
            out,
            model,
            ids,
            Some(types),
            Some(mask),
            kernels,
            reciprocal,
        );
    lemma_embedding_is_the_mean(
        value,
        out,
        model,
        ids,
        Some(types),
        Some(mask),
        kernels,
        reciprocal,
    );
    let one = |i: int|
        if Some(mask) is Some && Some(mask)->0@[i] == 0 {
            0
        } else {
            1int
        };
    let hidden = choose|hidden: Tensor<T>| #[trigger]
        forward_gives(hidden, model, ids, Some(types), kernels) && ({
            let count = total(one, hidden.dims()[0] as int);
            &&& count > 0 ==> exists|inv: T| #[trigger]
                call_ensures(reciprocal, (count as usize,), inv) && forall|j: int|
                    0 <= j < hidden.dims()[1] ==> value(#[trigger] out.elems()[j]) == counted(
                        value,
                        hidden,
                        Some(mask),
                        j,
                        hidden.dims()[0] as int,
                    ) * value(inv)
        });
    let (states, t) = choose|states: Seq<Tensor<T>>, t: EmbeddingTrace<T>|
        #![trigger layers_give(states, model, kernels), embeddings_give(states[0], model, ids, Some(types), kernels, t)]
        states.len() == model.layers@.len() + 1 && embeddings_give(
            states[0],
            model,
            ids,
            Some(types),
            kernels,
            t,
        ) && layers_give(states, model, kernels) && hidden == states.last();
    assert(segment_ids(Some(types), ids.len()) =~= segment_ids(None, ids.len()));
    assert(embeddings_give(states[0], model, ids, None, kernels, t));
    assert(forward_gives(hidden, model, ids, None, kernels));
    lemma_states_keep_shape(states, model, kernels, states.len() - 1);
    let n = ids.len() as int;
    assert(hidden.dims()[0] == n);
    lemma_total_of_ones(one, n);
    let inv = choose|inv: T| #[trigger]
        call_ensures(reciprocal, (n as usize,), inv) && forall|j: int|
            0 <= j < hidden.dims()[1] ==> value(#[trigger] out.elems()[j]) == counted(
                value,
                hidden,
                Some(mask),
                j,
                n,
            ) * value(inv);
    assert forall|j: int| 0 <= j < hidden.dims()[1] implies value(#[trigger] out.elems()[j])
        == total(|i: int| at(value, hidden, i, j), n) * value(inv) by {
        lemma_total_eq(
            |i: int|
                if Some(mask) is Some && Some(mask)->0@[i] == 0 {
                    0
                } else {
                    at(value, hidden, i, j)
                },
            |i: int| at(value, hidden, i, j),
            n,
        );
    }
    assert(hidden.dims() == hidden.dims());
}

/// As many ones as there are positions.
proof fn lemma_total_of_ones(f: spec_fn(int) -> int, n: int)
    requires
        0 <= n,
        forall|i: int| 0 <= i < n ==> #[trigger] f(i) == 1,
    ensures
        total(f, n) == n,
    decreases n,
{
    if n > 0 {
        lemma_total_of_ones(f, n - 1);
        assert(f(n - 1) == 1);
    }
}

/// Every state has the shape of the first.
proof fn lemma_states_keep_shape<
    T: Default + From<i8> + From<i16> + Add<Output = T> + Mul<Output = T>,
    N: Fn(&[T], &[T], &[T], T) -> Vec<T>,
    S: Fn(&[T]) -> Vec<T>,
    G: Fn(T) -> T,
    A: Fn(usize) -> T,
>(
    states: Seq<Tensor<T>>,
    model: BertModel<T>,
    kernels: EncoderKernels<N, S, G, A>,
    i: int,
)
    requires
        states.len() == model.layers@.len() + 1,
        layers_give(states, model, kernels),
        0 <= i < states.len(),
    ensures
        states[i].dims() == states[0].dims(),
    decreases i,
{
    if i > 0 {
        lemma_states_keep_shape(states, model, kernels, i - 1);
        let layer = model.layers@[i - 1];
        assert(layer_may_give(states[i], states[i - 1], layer, model.config, kernels));
        let t = choose|t: LayerTrace<T>| #[trigger]
            layer_gives(states[i], states[i - 1], layer, model.config, kernels, t);
    }
}

} // verus!
