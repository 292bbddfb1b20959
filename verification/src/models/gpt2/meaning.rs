//! What a GPT-2 decoder amounts to where elements compute without rounding.

use vstd::prelude::*;
use core::ops::{Add, Mul};
use crate::exact::{
    activates, at, is_exact, is_null, lemma_elementwise_sum, lemma_linear, lemma_lookup,
    lemma_normed_row, lemma_null_weight, lemma_product_t, lemma_row_weighted, lemma_same_cells,
    lemma_same_linear, lemma_same_mapped, lemma_same_normed, lemma_same_sum, lemma_total_eq,
    maps_to_one, normalizes_to_one, row_weighted, same_matrix, total, weighted,
};
use crate::models::forward::{is_matrix, positions};
use crate::models::generate::{
    argmax_gives, lemma_argmax_is_greatest, lemma_generation, ordered_by,
};
use crate::models::gpt2::forward::{
    DecoderKernels, EmbeddingTrace, LayerTrace, embeddings_give, forward_gives, greedy_gives, kernels_fit,
    layer_fits, layer_gives, layer_may_give, layers_give, last_logits_give, logits_give, model_fits,
    next_token_gives,
};
use crate::models::gpt2::{Gpt2Config, Gpt2Layer, Gpt2Model};
use crate::num::{lemma_cell_index, lemma_row_bounds, lemma_row_of_index, row_of};
use crate::ops::attention::heads_divide;
use crate::ops::attention::meaning::{
    lemma_queries_look_at_keys, lemma_single_position, looks_at, weighs_single_with_one,
};
use crate::ops::attention::queries::size_of_attention;
use crate::ops::layernorm::{is_layer_norm, row_normalizes};
use crate::ops::matmul::product_t_gives;
use crate::tensor::{Tensor, lemma_product_1, lemma_product_2};

verus! {

/// A layer and an input that fits it.
pub open spec fn layer_takes<T>(
    x: Tensor<T>,
    layer: Gpt2Layer<T>,
    config: Gpt2Config<T>,
) -> bool {
    &&& x.wf()
    &&& x.dims().len() == 2
    &&& x.dims()[1] > 0
    &&& layer_fits(layer, x.dims()[1], config.hidden_size)
    &&& heads_divide(config.hidden_size, config.num_attention_heads)
}

/// The queries, keys and values of a layer: rows of the normalized input times the
/// first, second and third part of the attention weight, plus that part of the
/// offsets. Every position of every head looks at the positions up to its own.
pub proof fn lemma_layer_attends<
    T: Default + Add<Output = T> + Mul<Output = T>,
    N: Fn(&[T], &[T], &[T], T) -> Vec<T>,
    S: Fn(&[T]) -> Vec<T>,
    G: Fn(T) -> T,
    F: Fn(usize) -> T,
>(
    value: spec_fn(T) -> int,
    out: Tensor<T>,
    x: Tensor<T>,
    layer: Gpt2Layer<T>,
    config: Gpt2Config<T>,
    kernels: DecoderKernels<N, S, G, F>,
    t: LayerTrace<T>,
    i: int,
    h: int,
    c: int,
)
    requires
        is_exact(value),
        kernels_fit(kernels),
        layer_takes(x, layer, config),
        layer_gives(out, x, layer, config, kernels, t),
        0 <= i < x.dims()[0],
        0 <= h < config.num_attention_heads,
        0 <= c < config.hidden_size,
    ensures
        row_normalizes(
            kernels.norm,
            row_of(x.elems(), x.dims()[1] as int, i),
            layer.ln_1_w.elems(),
            layer.ln_1_b.elems(),
            config.layer_norm_eps,
            row_of(t.ln1.elems(), x.dims()[1] as int, i),
        ),
        at(value, t.q, i, c) == weighted(value, t.ln1, i, layer.attn.c_attn_w, c) + value(
            layer.attn.c_attn_b.elems()[c],
        ),
        at(value, t.k, i, c) == weighted(
            value,
            t.ln1,
            i,
            layer.attn.c_attn_w,
            config.hidden_size + c,
        ) + value(layer.attn.c_attn_b.elems()[config.hidden_size + c]),
        at(value, t.v, i, c) == weighted(
            value,
            t.ln1,
            i,
            layer.attn.c_attn_w,
            2 * config.hidden_size + c,
        ) + value(layer.attn.c_attn_b.elems()[2 * config.hidden_size + c]),
        call_ensures(
            kernels.score_factor,
            ((config.hidden_size / config.num_attention_heads),),
            t.factor,
        ),
        t.heads.dims() == seq![x.dims()[0], config.hidden_size],
        looks_at(
            value,
            t.heads.elems(),
            t.q.elems(),
            t.k.elems(),
            t.v.elems(),
            config.hidden_size as int,
            (config.hidden_size / config.num_attention_heads) as int,
            h,
            i,
            i + 1,
            |j: int| 0,
            t.factor,
            kernels.softmax,
        ),
{
    let rows = x.dims()[0] as int;
    let inner = config.hidden_size as int;
    let a = layer.attn;
    lemma_product_2(x.dims());
    lemma_normed_row(
        t.ln1,
        x,
        layer.ln_1_w,
        layer.ln_1_b,
        config.layer_norm_eps,
        kernels.norm,
        i,
    );
    lemma_linear(value, t.qkv, t.ln1, a.c_attn_w, Some(&a.c_attn_b), i, c);
    lemma_linear(value, t.qkv, t.ln1, a.c_attn_w, Some(&a.c_attn_b), i, inner + c);
    lemma_linear(value, t.qkv, t.ln1, a.c_attn_w, Some(&a.c_attn_b), i, 2 * inner + c);
    lemma_cell_index(i, c, rows, inner);
    let size = size_of_attention(t.q, t.k, config.num_attention_heads);
    assert(size.heads * size.head_dim == inner && size.head_dim > 0) by (nonlinear_arith)
        requires
            size.heads == config.num_attention_heads,
            size.head_dim == config.hidden_size / config.num_attention_heads,
            inner == config.hidden_size,
            inner > 0,
            config.hidden_size % config.num_attention_heads == 0,
            config.num_attention_heads > 0,
    ;
    lemma_queries_look_at_keys(
        value,
        t.heads.elems(),
        t.q.elems(),
        t.k.elems(),
        t.v.elems(),
        size,
        None,
        true,
        t.factor,
        kernels.softmax,
        h,
        i,
    );
    let f = |j: int|
        match None::<Seq<T>> {
            Some(b) => value(b[(h * size.rows + i) * size.cols + j]),
            None => 0,
        };
    let g = |j: int| 0int;
    assert(f =~= g);
}

/// A layer adds two things to its input and takes nothing away: what attention
/// gives, projected, and what the feed-forward block gives, projected. The
/// feed-forward block works on the normalized sum of input and attention.
pub proof fn lemma_layer_adds<
    T: Default + Add<Output = T> + Mul<Output = T>,
    N: Fn(&[T], &[T], &[T], T) -> Vec<T>,
    S: Fn(&[T]) -> Vec<T>,
    G: Fn(T) -> T,
    F: Fn(usize) -> T,
>(
    value: spec_fn(T) -> int,
    out: Tensor<T>,
    x: Tensor<T>,
    layer: Gpt2Layer<T>,
    config: Gpt2Config<T>,
    kernels: DecoderKernels<N, S, G, F>,
    t: LayerTrace<T>,
    i: int,
    o: int,
    f: int,
)
    requires
        is_exact(value),
        layer_takes(x, layer, config),
        layer_gives(out, x, layer, config, kernels, t),
        0 <= i < x.dims()[0],
        0 <= o < x.dims()[1],
        0 <= f < layer.mlp.fc_b.dims()[0],
    ensures
        out.dims() == x.dims(),
        at(value, out, i, o) == at(value, x, i, o) + (weighted(
            value,
            t.heads,
            i,
            layer.attn.c_proj_w,
            o,
        ) + value(layer.attn.c_proj_b.elems()[o])) + (weighted(
            value,
            t.active,
            i,
            layer.mlp.proj_w,
            o,
        ) + value(layer.mlp.proj_b.elems()[o])),
        at(value, t.middle, i, o) == at(value, x, i, o) + (weighted(
            value,
            t.heads,
            i,
            layer.attn.c_proj_w,
            o,
        ) + value(layer.attn.c_proj_b.elems()[o])),
        row_normalizes(
            kernels.norm,
            row_of(t.middle.elems(), x.dims()[1] as int, i),
            layer.ln_2_w.elems(),
            layer.ln_2_b.elems(),
            config.layer_norm_eps,
            row_of(t.ln2.elems(), x.dims()[1] as int, i),
        ),
        activates(
            value,
            kernels.activation,
            weighted(value, t.ln2, i, layer.mlp.fc_w, f) + value(layer.mlp.fc_b.elems()[f]),
            t.active.elems()[i * layer.mlp.fc_b.dims()[0] + f],
        ),
{
    let m = layer.mlp;
    let a = layer.attn;
    let wide = m.fc_b.dims()[0] as int;
    lemma_product_2(x.dims());
    lemma_linear(value, t.attn, t.heads, a.c_proj_w, Some(&a.c_proj_b), i, o);
    assert(t.attn.dims() =~= x.dims());
    lemma_elementwise_sum(value, t.middle, x, t.attn, i, o);
    lemma_normed_row(
        t.ln2,
        t.middle,
        layer.ln_2_w,
        layer.ln_2_b,
        config.layer_norm_eps,
        kernels.norm,
        i,
    );
    lemma_linear(value, t.fc, t.ln2, m.fc_w, Some(&m.fc_b), i, f);
    lemma_linear(value, t.proj, t.active, m.proj_w, Some(&m.proj_b), i, o);
    assert(t.proj.dims() =~= x.dims());
    lemma_elementwise_sum(value, out, t.middle, t.proj, i, o);
    lemma_product_2(t.fc.dims());
    lemma_cell_index(i, f, x.dims()[0] as int, wide);
    let p = i * wide + f;
    assert(call_ensures(kernels.activation, (t.fc.elems()[p],), t.active.elems()[p]));
}

/// A layer whose two projections are zero gives its input.
pub proof fn lemma_null_layer_keeps_input<
    T: Default + Add<Output = T> + Mul<Output = T>,
    N: Fn(&[T], &[T], &[T], T) -> Vec<T>,
    S: Fn(&[T]) -> Vec<T>,
    G: Fn(T) -> T,
    F: Fn(usize) -> T,
>(
    value: spec_fn(T) -> int,
    out: Tensor<T>,
    x: Tensor<T>,
    layer: Gpt2Layer<T>,
    config: Gpt2Config<T>,
    kernels: DecoderKernels<N, S, G, F>,
)
    requires
        is_exact(value),
        layer_takes(x, layer, config),
        layer_may_give(out, x, layer, config, kernels),
        is_null(value, layer.attn.c_proj_w),
        is_null(value, layer.attn.c_proj_b),
        is_null(value, layer.mlp.proj_w),
        is_null(value, layer.mlp.proj_b),
    ensures
        same_matrix(out, x),
{
    let t = choose|t: LayerTrace<T>| #[trigger] layer_gives(out, x, layer, config, kernels, t);
    assert forall|i: int, o: int|
        0 <= i < out.dims()[0] && 0 <= o < out.dims()[1] implies #[trigger] at(value, out, i, o)
        == at(value, x, i, o) by {
        lemma_layer_adds(value, out, x, layer, config, kernels, t, i, o, 0);
        lemma_null_weight(value, t.heads, i, layer.attn.c_proj_w, o);
        lemma_null_weight(value, t.active, i, layer.mlp.proj_w, o);
        lemma_product_1(layer.attn.c_proj_b.dims());
        lemma_product_1(layer.mlp.proj_b.dims());
        assert(value(layer.attn.c_proj_b.elems()[o]) == 0);
        assert(value(layer.mlp.proj_b.elems()[o]) == 0);
    }
    assert(out.dims() == x.dims());
    lemma_same_cells(value, out, x);
}

/// A layer whose attention projection is zero adds what the feed-forward block
/// makes of the normalized input.
pub proof fn lemma_layer_without_attention<
    T: Default + Add<Output = T> + Mul<Output = T>,
    N: Fn(&[T], &[T], &[T], T) -> Vec<T>,
    S: Fn(&[T]) -> Vec<T>,
    G: Fn(T) -> T,
    F: Fn(usize) -> T,
>(
    value: spec_fn(T) -> int,
    out: Tensor<T>,
    x: Tensor<T>,
    layer: Gpt2Layer<T>,
    config: Gpt2Config<T>,
    kernels: DecoderKernels<N, S, G, F>,
    i: int,
)
    requires
        is_exact(value),
        layer_takes(x, layer, config),
        layer_may_give(out, x, layer, config, kernels),
        is_null(value, layer.attn.c_proj_w),
        is_null(value, layer.attn.c_proj_b),
        0 <= i < x.dims()[0],
    ensures
        exists|normed: Seq<T>, active: Seq<T>|
            #![trigger row_normalizes(kernels.norm, row_of(x.elems(), x.dims()[1] as int, i), layer.ln_2_w.elems(), layer.ln_2_b.elems(), config.layer_norm_eps, normed), active.len()]
            row_normalizes(
                kernels.norm,
                row_of(x.elems(), x.dims()[1] as int, i),
                layer.ln_2_w.elems(),
                layer.ln_2_b.elems(),
                config.layer_norm_eps,
                normed,
            ) && active.len() == layer.mlp.fc_b.dims()[0] && (forall|f: int|
                0 <= f < active.len() ==> activates(
                    value,
                    kernels.activation,
                    row_weighted(value, normed, layer.mlp.fc_w, f) + value(
                        layer.mlp.fc_b.elems()[f],
                    ),
                    #[trigger] active[f],
                )) && forall|o: int|
                0 <= o < x.dims()[1] ==> #[trigger] at(value, out, i, o) == at(value, x, i, o) + (
                row_weighted(value, active, layer.mlp.proj_w, o) + value(
                    layer.mlp.proj_b.elems()[o],
                )),
{
    let t = choose|t: LayerTrace<T>| #[trigger] layer_gives(out, x, layer, config, kernels, t);
    let wide = layer.mlp.fc_b.dims()[0] as int;
    let normed = row_of(t.ln2.elems(), x.dims()[1] as int, i);
    let active = row_of(t.active.elems(), wide, i);
    lemma_layer_adds(value, out, x, layer, config, kernels, t, i, 0, 0);
    assert(t.middle.dims() == x.dims());
    assert forall|r: int, o: int|
        0 <= r < t.middle.dims()[0] && 0 <= o < t.middle.dims()[1] implies #[trigger] at(
        value,
        t.middle,
        r,
        o,
    ) == at(value, x, r, o) by {
        lemma_layer_adds(value, out, x, layer, config, kernels, t, r, o, 0);
        lemma_null_weight(value, t.heads, r, layer.attn.c_proj_w, o);
        lemma_product_1(layer.attn.c_proj_b.dims());
        assert(value(layer.attn.c_proj_b.elems()[o]) == 0);
    }
    lemma_same_cells(value, t.middle, x);
    lemma_product_2(t.active.dims());
    lemma_row_bounds(i, x.dims()[0] as int, wide);
    assert forall|f: int| 0 <= f < active.len() implies activates(
        value,
        kernels.activation,
        row_weighted(value, normed, layer.mlp.fc_w, f) + value(layer.mlp.fc_b.elems()[f]),
        #[trigger] active[f],
    ) by {
        lemma_layer_adds(value, out, x, layer, config, kernels, t, i, 0, f);
        lemma_row_weighted(value, t.ln2, i, layer.mlp.fc_w, f);
        assert(active[f] == t.active.elems()[i * wide + f]);
    }
    assert forall|o: int| 0 <= o < x.dims()[1] implies #[trigger] at(value, out, i, o) == at(
        value,
        x,
        i,
        o,
    ) + (row_weighted(value, active, layer.mlp.proj_w, o) + value(layer.mlp.proj_b.elems()[o])) by {
        lemma_layer_adds(value, out, x, layer, config, kernels, t, i, o, 0);
        lemma_null_weight(value, t.heads, i, layer.attn.c_proj_w, o);
        lemma_product_1(layer.attn.c_proj_b.dims());
        assert(value(layer.attn.c_proj_b.elems()[o]) == 0);
        lemma_row_weighted(value, t.active, i, layer.mlp.proj_w, o);
    }
}

/// On a single token, the heads give the values: the normalized input times the
/// third part of the attention weight, plus that part of the offsets.
pub proof fn lemma_heads_of_single_token<
    T: Default + Add<Output = T> + Mul<Output = T>,
    N: Fn(&[T], &[T], &[T], T) -> Vec<T>,
    S: Fn(&[T]) -> Vec<T>,
    G: Fn(T) -> T,
    F: Fn(usize) -> T,
>(
    value: spec_fn(T) -> int,
    out: Tensor<T>,
    x: Tensor<T>,
    layer: Gpt2Layer<T>,
    config: Gpt2Config<T>,
    kernels: DecoderKernels<N, S, G, F>,
    t: LayerTrace<T>,
    c: int,
)
    requires
        is_exact(value),
        kernels_fit(kernels),
        weighs_single_with_one(value, kernels.softmax),
        layer_takes(x, layer, config),
        x.dims()[0] == 1,
        layer_gives(out, x, layer, config, kernels, t),
        0 <= c < config.hidden_size,
    ensures
        at(value, t.heads, 0, c) == row_weighted(
            value,
            row_of(t.ln1.elems(), x.dims()[1] as int, 0),
            layer.attn.c_attn_w,
            2 * config.hidden_size + c,
        ) + value(layer.attn.c_attn_b.elems()[2 * config.hidden_size + c]),
{
    let inner = config.hidden_size as int;
    let heads = config.num_attention_heads as int;
    let d = (config.hidden_size / config.num_attention_heads) as int;
    assert(heads * d == inner && d > 0) by (nonlinear_arith)
        requires
            heads == config.num_attention_heads,
            d == config.hidden_size / config.num_attention_heads,
            inner == config.hidden_size,
            inner > 0,
            config.hidden_size % config.num_attention_heads == 0,
            heads > 0,
    ;
    lemma_row_of_index(c, heads, d);
    let h = c / d;
    lemma_layer_attends(value, out, x, layer, config, kernels, t, 0, h, c);
    lemma_single_position(
        value,
        t.heads.elems(),
        t.q.elems(),
        t.k.elems(),
        t.v.elems(),
        inner,
        d,
        h,
        0,
        |j: int| 0,
        t.factor,
        kernels.softmax,
        c % d,
    );
    assert(0 * inner == 0);
    lemma_row_weighted(value, t.ln1, 0, layer.attn.c_attn_w, 2 * inner + c);
}

/// A layer whose feed-forward projection is zero adds to a single token what
/// attention gives: the values, projected.
pub proof fn lemma_layer_without_feed_forward<
    T: Default + Add<Output = T> + Mul<Output = T>,
    N: Fn(&[T], &[T], &[T], T) -> Vec<T>,
    S: Fn(&[T]) -> Vec<T>,
    G: Fn(T) -> T,
    F: Fn(usize) -> T,
>(
    value: spec_fn(T) -> int,
    out: Tensor<T>,
    x: Tensor<T>,
    layer: Gpt2Layer<T>,
    config: Gpt2Config<T>,
    kernels: DecoderKernels<N, S, G, F>,
)
    requires
        is_exact(value),
        kernels_fit(kernels),
        weighs_single_with_one(value, kernels.softmax),
        layer_takes(x, layer, config),
        x.dims()[0] == 1,
        layer_may_give(out, x, layer, config, kernels),
        is_null(value, layer.mlp.proj_w),
        is_null(value, layer.mlp.proj_b),
    ensures
        exists|normed: Seq<T>| #[trigger]
            row_normalizes(
                kernels.norm,
                row_of(x.elems(), x.dims()[1] as int, 0),
                layer.ln_1_w.elems(),
                layer.ln_1_b.elems(),
                config.layer_norm_eps,
                normed,
            ) && forall|o: int|
                0 <= o < x.dims()[1] ==> #[trigger] at(value, out, 0, o) == at(value, x, 0, o)
                    + total(
                    |c: int|
                        (row_weighted(
                            value,
                            normed,
                            layer.attn.c_attn_w,
                            2 * config.hidden_size + c,
                        ) + value(layer.attn.c_attn_b.elems()[2 * config.hidden_size + c])) * at(
                            value,
                            layer.attn.c_proj_w,
                            o,
                            c,
                        ),
                    config.hidden_size as int,
                ) + value(layer.attn.c_proj_b.elems()[o]),
{
    let t = choose|t: LayerTrace<T>| #[trigger] layer_gives(out, x, layer, config, kernels, t);
    let normed = row_of(t.ln1.elems(), x.dims()[1] as int, 0);
    lemma_layer_attends(value, out, x, layer, config, kernels, t, 0, 0, 0);
    assert forall|o: int| 0 <= o < x.dims()[1] implies #[trigger] at(value, out, 0, o) == at(
        value,
        x,
        0,
        o,
    ) + total(
        |c: int|
            (row_weighted(value, normed, layer.attn.c_attn_w, 2 * config.hidden_size + c) + value(
                layer.attn.c_attn_b.elems()[2 * config.hidden_size + c],
            )) * at(value, layer.attn.c_proj_w, o, c),
        config.hidden_size as int,
    ) + value(layer.attn.c_proj_b.elems()[o]) by {
        lemma_layer_adds(value, out, x, layer, config, kernels, t, 0, o, 0);
        lemma_null_weight(value, t.active, 0, layer.mlp.proj_w, o);
        lemma_product_1(layer.mlp.proj_b.dims());
        assert(value(layer.mlp.proj_b.elems()[o]) == 0);
        let f = |l: int| at(value, t.heads, 0, l) * at(value, layer.attn.c_proj_w, o, l);
        let g = |c: int|
            (row_weighted(value, normed, layer.attn.c_attn_w, 2 * config.hidden_size + c) + value(
                layer.attn.c_attn_b.elems()[2 * config.hidden_size + c],
            )) * at(value, layer.attn.c_proj_w, o, c);
        assert forall|c: int| 0 <= c < config.hidden_size implies #[trigger] f(c) == g(c) by {
            lemma_heads_of_single_token(value, out, x, layer, config, kernels, t, c);
        }
        lemma_total_eq(f, g, config.hidden_size as int);
    }
}

/// Two layers that are the same but for the queries and keys of attention.
pub open spec fn same_but_for_queries_and_keys<T>(
    a: Gpt2Layer<T>,
    b: Gpt2Layer<T>,
    inner: int,
) -> bool {
    &&& a.ln_1_w == b.ln_1_w
    &&& a.ln_1_b == b.ln_1_b
    &&& a.attn.c_attn_w.dims() == b.attn.c_attn_w.dims()
    &&& a.attn.c_attn_w.elems().skip(2 * inner * a.attn.c_attn_w.dims()[1])
        == b.attn.c_attn_w.elems().skip(2 * inner * a.attn.c_attn_w.dims()[1])
    &&& a.attn.c_attn_b.elems().skip(2 * inner) == b.attn.c_attn_b.elems().skip(2 * inner)
    &&& a.attn.c_proj_w == b.attn.c_proj_w
    &&& a.attn.c_proj_b == b.attn.c_proj_b
    &&& a.ln_2_w == b.ln_2_w
    &&& a.ln_2_b == b.ln_2_b
    &&& a.mlp == b.mlp
}

/// Queries and keys say only how much each position counts: on a single token,
/// where there is nothing to choose from, they make no difference.
pub proof fn lemma_queries_and_keys_choose_positions<
    T: Default + Add<Output = T> + Mul<Output = T>,
    N: Fn(&[T], &[T], &[T], T) -> Vec<T>,
    S: Fn(&[T]) -> Vec<T>,
    G: Fn(T) -> T,
    F: Fn(usize) -> T,
>(
    value: spec_fn(T) -> int,
    out: Tensor<T>,
    other_out: Tensor<T>,
    x: Tensor<T>,
    layer: Gpt2Layer<T>,
    other: Gpt2Layer<T>,
    config: Gpt2Config<T>,
    kernels: DecoderKernels<N, S, G, F>,
)
    requires
        is_exact(value),
        kernels_fit(kernels),
        weighs_single_with_one(value, kernels.softmax),
        normalizes_to_one(kernels.norm),
        maps_to_one(kernels.activation),
        layer_takes(x, layer, config),
        layer_takes(x, other, config),
        x.dims()[0] == 1,
        same_but_for_queries_and_keys(layer, other, config.hidden_size as int),
        layer_may_give(out, x, layer, config, kernels),
        layer_may_give(other_out, x, other, config, kernels),
    ensures
        same_matrix(out, other_out),
{
    let t = choose|t: LayerTrace<T>| #[trigger] layer_gives(out, x, layer, config, kernels, t);
    let u = choose|t: LayerTrace<T>| #[trigger]
        layer_gives(other_out, x, other, config, kernels, t);
    let inner = config.hidden_size as int;
    let hidden = x.dims()[1] as int;
    assert(same_matrix(x, x));
    lemma_same_normed(
        t.ln1,
        x,
        u.ln1,
        x,
        layer.ln_1_w,
        layer.ln_1_b,
        config.layer_norm_eps,
        kernels.norm,
    );
    assert forall|i: int, c: int|
        0 <= i < t.heads.dims()[0] && 0 <= c < t.heads.dims()[1] implies #[trigger] at(
        value,
        t.heads,
        i,
        c,
    ) == at(value, u.heads, i, c) by {
        lemma_heads_of_single_token(value, out, x, layer, config, kernels, t, c);
        lemma_heads_of_single_token(value, other_out, x, other, config, kernels, u, c);
        let normed = row_of(t.ln1.elems(), hidden, 0);
        let (w, w2) = (layer.attn.c_attn_w, other.attn.c_attn_w);
        let (b, b2) = (layer.attn.c_attn_b, other.attn.c_attn_b);
        lemma_product_2(w.dims());
        lemma_product_1(b.dims());
        lemma_product_1(b2.dims());
        let from = 2 * inner * hidden;
        let r = 2 * inner + c;
        assert(0 <= from <= w.elems().len() && from == 2 * inner * hidden) by (nonlinear_arith)
            requires
                from == 2 * inner * hidden,
                w.elems().len() == 3 * inner * hidden,
                0 <= inner,
                0 <= hidden,
        ;
        let f = |l: int| value(normed[l]) * at(value, w, r, l);
        let g = |l: int| value(normed[l]) * at(value, w2, r, l);
        assert forall|l: int| 0 <= l < hidden implies #[trigger] f(l) == g(l) by {
            lemma_cell_index(r, l, 3 * inner, hidden);
            let p = r * hidden + l;
            assert(p - from == c * hidden + l) by (nonlinear_arith)
                requires
                    p == r * hidden + l,
                    r == 2 * inner + c,
                    from == 2 * inner * hidden,
            ;
            assert(0 <= c * hidden) by (nonlinear_arith)
                requires
                    0 <= c,
                    0 <= hidden,
            ;
            assert(w.elems()[p] == w.elems().skip(from)[p - from]);
            assert(w2.elems()[p] == w2.elems().skip(from)[p - from]);
        }
        lemma_total_eq(f, g, hidden);
        assert(b.elems()[r] == b.elems().skip(2 * inner)[c]);
        assert(b2.elems()[r] == b2.elems().skip(2 * inner)[c]);
    }
    lemma_same_cells(value, t.heads, u.heads);
    let a = layer.attn;
    let m = layer.mlp;
    lemma_same_linear(value, t.attn, t.heads, u.attn, u.heads, a.c_proj_w, Some(&a.c_proj_b));
    assert(t.attn.dims() =~= x.dims());
    lemma_same_sum(value, t.middle, x, t.attn, u.middle, x, u.attn);
    lemma_same_normed(
        t.ln2,
        t.middle,
        u.ln2,
        u.middle,
        layer.ln_2_w,
        layer.ln_2_b,
        config.layer_norm_eps,
        kernels.norm,
    );
    lemma_same_linear(value, t.fc, t.ln2, u.fc, u.ln2, m.fc_w, Some(&m.fc_b));
    lemma_same_mapped(t.active, t.fc, u.active, u.fc, kernels.activation);
    lemma_same_linear(value, t.proj, t.active, u.proj, u.active, m.proj_w, Some(&m.proj_b));
    assert(t.proj.dims() =~= x.dims());
    lemma_same_sum(value, out, t.middle, t.proj, other_out, u.middle, u.proj);
}

/// The decoder starts with word plus position: the state of position `i` is the
/// embedding of the token there plus the embedding of the position. Every layer
/// works on the state that the one before left, and the last state is normalized.
pub proof fn lemma_forward_is_a_chain<
    T: Default + Add<Output = T> + Mul<Output = T>,
    N: Fn(&[T], &[T], &[T], T) -> Vec<T>,
    S: Fn(&[T]) -> Vec<T>,
    G: Fn(T) -> T,
    F: Fn(usize) -> T,
>(
    value: spec_fn(T) -> int,
    out: Tensor<T>,
    model: Gpt2Model<T>,
    ids: Seq<u32>,
    kernels: DecoderKernels<N, S, G, F>,
)
    requires
        is_exact(value),
        model_fits(model),
        ids.len() <= u32::MAX,
        ids.len() <= usize::MAX,
        forward_gives(out, model, ids, kernels),
    ensures
        exists|states: Seq<Tensor<T>>|
            #![trigger states.len()]
            states.len() == model.layers@.len() + 1 && states[0].dims() == seq![
                ids.len() as usize,
                model.wte.dims()[1],
            ] && (forall|i: int, j: int|
                0 <= i < ids.len() && 0 <= j < model.wte.dims()[1] ==> #[trigger] at(
                    value,
                    states[0],
                    i,
                    j,
                ) == at(value, model.wte, ids[i] as int, j) + at(value, model.wpe, i, j)) && (
            forall|i: int|
                0 <= i < model.layers@.len() ==> layer_may_give(
                    states[i + 1],
                    states[i],
                    #[trigger] model.layers@[i],
                    model.config,
                    kernels,
                )) && forall|i: int|
                0 <= i < ids.len() ==> row_normalizes(
                    kernels.norm,
                    row_of(
                        states[model.layers@.len() as int].elems(),
                        model.wte.dims()[1] as int,
                        i,
                    ),
                    model.ln_f_w.elems(),
                    model.ln_f_b.elems(),
                    model.config.layer_norm_eps,
                    #[trigger] row_of(out.elems(), model.wte.dims()[1] as int, i),
                ),
{
    let (states, t) = choose|states: Seq<Tensor<T>>, t: EmbeddingTrace<T>|
        #![trigger layers_give(states, model, kernels), embeddings_give(states[0], model, ids, t)]
        states.len() == model.layers@.len() + 1 && embeddings_give(states[0], model, ids, t)
            && layers_give(states, model, kernels) && is_layer_norm(
            out,
            states.last(),
            model.ln_f_w,
            model.ln_f_b,
            model.config.layer_norm_eps,
            kernels.norm,
        );
    assert forall|i: int, j: int|
        0 <= i < ids.len() && 0 <= j < model.wte.dims()[1] implies #[trigger] at(
        value,
        states[0],
        i,
        j,
    ) == at(value, model.wte, ids[i] as int, j) + at(value, model.wpe, i, j) by {
        lemma_lookup(value, t.word, ids, model.wte, i, j);
        lemma_lookup(value, t.position, positions(ids.len()), model.wpe, i, j);
        assert(t.word.dims() =~= t.position.dims());
        lemma_elementwise_sum(value, states[0], t.word, t.position, i, j);
    }
    lemma_states_keep_shape(states, model, kernels, states.len() - 1);
    assert forall|i: int| 0 <= i < ids.len() implies row_normalizes(
        kernels.norm,
        row_of(
            states[model.layers@.len() as int].elems(),
            model.wte.dims()[1] as int,
            i,
        ),
        model.ln_f_w.elems(),
        model.ln_f_b.elems(),
        model.config.layer_norm_eps,
        #[trigger] row_of(out.elems(), model.wte.dims()[1] as int, i),
    ) by {
        lemma_normed_row(
            out,
            states.last(),
            model.ln_f_w,
            model.ln_f_b,
            model.config.layer_norm_eps,
            kernels.norm,
            i,
        );
    }
    assert(states.len() == model.layers@.len() + 1);
}

/// The logits, element by element: the hidden state of the position times the row
/// of the output projection for the token.
proof fn lemma_logits_of_elements<
    T: Default + Add<Output = T> + Mul<Output = T>,
    N: Fn(&[T], &[T], &[T], T) -> Vec<T>,
    S: Fn(&[T]) -> Vec<T>,
    G: Fn(T) -> T,
    F: Fn(usize) -> T,
>(
    value: spec_fn(T) -> int,
    elems: Seq<T>,
    model: Gpt2Model<T>,
    ids: Seq<u32>,
    kernels: DecoderKernels<N, S, G, F>,
    out: Tensor<T>,
) -> (hidden: Tensor<T>)
    requires
        is_exact(value),
        model_fits(model),
        ids.len() <= usize::MAX,
        logits_give(out, model, ids, kernels),
        elems == out.elems(),
    ensures
        forward_gives(hidden, model, ids, kernels),
        elems.len() == ids.len() * model.lm_head.dims()[0],
        forall|i: int, o: int|
            0 <= i < ids.len() && 0 <= o < model.lm_head.dims()[0] ==> value(
                #[trigger] elems[i * model.lm_head.dims()[0] + o],
            ) == weighted(value, hidden, i, model.lm_head, o),
{
    let d = model.wte.dims()[1] as int;
    let n = model.lm_head.dims()[0] as int;
    let hidden = choose|hidden: Tensor<T>| #[trigger]
        forward_gives(hidden, model, ids, kernels) && product_t_gives(
            hidden.elems(),
            model.lm_head.elems(),
            ids.len() as int,
            d,
            n,
            elems,
        );
    let (states, t) = choose|states: Seq<Tensor<T>>, t: EmbeddingTrace<T>|
        #![trigger layers_give(states, model, kernels), embeddings_give(states[0], model, ids, t)]
        states.len() == model.layers@.len() + 1 && embeddings_give(states[0], model, ids, t)
            && layers_give(states, model, kernels) && is_layer_norm(
            hidden,
            states.last(),
            model.ln_f_w,
            model.ln_f_b,
            model.config.layer_norm_eps,
            kernels.norm,
        );
    lemma_states_keep_shape(states, model, kernels, states.len() - 1);
    lemma_product_2(hidden.dims());
    lemma_product_2(model.lm_head.dims());
    assert forall|i: int, o: int|
        0 <= i < ids.len() && 0 <= o < model.lm_head.dims()[0] implies value(
        #[trigger] elems[i * model.lm_head.dims()[0] + o],
    ) == weighted(value, hidden, i, model.lm_head, o) by {
        lemma_product_t(
            value,
            hidden.elems(),
            model.lm_head.elems(),
            ids.len() as int,
            d,
            n,
            elems,
            i,
            o,
        );
        lemma_total_eq(
            |l: int| value(hidden.elems()[i * d + l]) * value(model.lm_head.elems()[o * d + l]),
            |l: int| at(value, hidden, i, l) * at(value, model.lm_head, o, l),
            d,
        );
    }
    hidden
}

/// The logit of a token at a position is the hidden state there times the row of
/// the output projection for the token.
pub proof fn lemma_logits_score_tokens<
    T: Default + Add<Output = T> + Mul<Output = T>,
    N: Fn(&[T], &[T], &[T], T) -> Vec<T>,
    S: Fn(&[T]) -> Vec<T>,
    G: Fn(T) -> T,
    F: Fn(usize) -> T,
>(
    value: spec_fn(T) -> int,
    out: Tensor<T>,
    model: Gpt2Model<T>,
    ids: Seq<u32>,
    kernels: DecoderKernels<N, S, G, F>,
)
    requires
        is_exact(value),
        model_fits(model),
        ids.len() <= usize::MAX,
        logits_give(out, model, ids, kernels),
        is_matrix(out, ids.len() as usize, model.lm_head.dims()[0]),
    ensures
        exists|hidden: Tensor<T>| #[trigger]
            forward_gives(hidden, model, ids, kernels) && forall|i: int, o: int|
                0 <= i < ids.len() && 0 <= o < model.lm_head.dims()[0] ==> #[trigger] at(
                    value,
                    out,
                    i,
                    o,
                ) == weighted(value, hidden, i, model.lm_head, o),
{
    let hidden = lemma_logits_of_elements(value, out.elems(), model, ids, kernels, out);
}

/// Every state has the shape of the first.
proof fn lemma_states_keep_shape<
    T: Default + Add<Output = T> + Mul<Output = T>,
    N: Fn(&[T], &[T], &[T], T) -> Vec<T>,
    S: Fn(&[T]) -> Vec<T>,
    G: Fn(T) -> T,
    F: Fn(usize) -> T,
>(
    states: Seq<Tensor<T>>,
    model: Gpt2Model<T>,
    kernels: DecoderKernels<N, S, G, F>,
    i: int,
)
    requires
        states.len() == model.layers@.len() + 1,
        layers_give(states, model, kernels),
        0 <= i < states.len(),
    ensures
        states[i].dims() == states[0].dims(),
    decreases i,
{
    if i > 0 {
        lemma_states_keep_shape(states, model, kernels, i - 1);
        let layer = model.layers@[i - 1];
        assert(layer_may_give(states[i], states[i - 1], layer, model.config, kernels));
        let t = choose|t: LayerTrace<T>| #[trigger]
            layer_gives(states[i], states[i - 1], layer, model.config, kernels, t);
    }
}

/// The next token is the one that the last hidden state fits best: no token of the
/// vocabulary has a greater product with the state of the last position, and none
/// behind it has an equal one.
pub proof fn lemma_next_token_fits_best<
    T: Copy + Default + PartialOrd + Add<Output = T> + Mul<Output = T>,
    N: Fn(&[T], &[T], &[T], T) -> Vec<T>,
    S: Fn(&[T]) -> Vec<T>,
    G: Fn(T) -> T,
    F: Fn(usize) -> T,
>(
    value: spec_fn(T) -> int,
    model: Gpt2Model<T>,
    ids: Seq<u32>,
    kernels: DecoderKernels<N, S, G, F>,
    token: u32,
)
    requires
        is_exact(value),
        ordered_by(value),
        model_fits(model),
        0 < ids.len() <= usize::MAX,
        0 < model.config.vocab_size <= u32::MAX,
        model.config.vocab_size <= model.lm_head.dims()[0],
        next_token_gives(model, ids, kernels, token),
    ensures
        exists|hidden: Tensor<T>| #[trigger]
            forward_gives(hidden, model, ids, kernels) && token < model.config.vocab_size && (
            forall|o: int|
                0 <= o < model.config.vocab_size ==> #[trigger] weighted(
                    value,
                    hidden,
                    ids.len() - 1,
                    model.lm_head,
                    o,
                ) <= weighted(value, hidden, ids.len() - 1, model.lm_head, token as int))
                && forall|o: int|
                token < o < model.config.vocab_size ==> #[trigger] weighted(
                    value,
                    hidden,
                    ids.len() - 1,
                    model.lm_head,
                    o,
                ) < weighted(value, hidden, ids.len() - 1, model.lm_head, token as int),
{
    let (row, best) = choose|row: Seq<T>, best: usize|
        #![trigger last_logits_give(row, model, ids, kernels), argmax_gives(row, row.len() as int, best as int)]
        last_logits_give(row, model, ids, kernels) && argmax_gives(
            row,
            row.len() as int,
            best as int,
        ) && row.len() == model.config.vocab_size && token == best as u32;
    lemma_argmax_is_greatest(row, row.len() as int, best as int, value);
    let width = model.lm_head.dims()[0] as int;
    let all = choose|all: Tensor<T>| #[trigger]
        logits_give(all, model, ids, kernels) && row == row_of(
            all.elems(),
            width,
            ids.len() - 1,
        ).take(model.config.vocab_size as int);
    let hidden = lemma_logits_of_elements(value, all.elems(), model, ids, kernels, all);
    let last = ids.len() - 1;
    lemma_row_bounds(last, ids.len() as int, width);
    assert forall|o: int| 0 <= o < model.config.vocab_size implies #[trigger] weighted(
        value,
        hidden,
        last,
        model.lm_head,
        o,
    ) == value(row[o]) by {
        assert(row[o] == all.elems()[last * width + o]);
    }
}

/// Generation keeps the prompt and adds at most `max_new_tokens` tokens, as long as
/// there are positions for them. The end token can only come last, and only the end
/// token and the number of positions make the new tokens fewer.
pub proof fn lemma_generation_ends<
    T: Copy + Default + PartialOrd + Add<Output = T> + Mul<Output = T>,
    N: Fn(&[T], &[T], &[T], T) -> Vec<T>,
    S: Fn(&[T]) -> Vec<T>,
    G: Fn(T) -> T,
    F: Fn(usize) -> T,
>(
    out: Seq<u32>,
    model: Gpt2Model<T>,
    prompt_ids: Seq<u32>,
    max_new_tokens: nat,
    kernels: DecoderKernels<N, S, G, F>,
)
    requires
        greedy_gives(out, model, prompt_ids, max_new_tokens, kernels),
    ensures
        prompt_ids.is_prefix_of(out),
        out.len() <= prompt_ids.len() + max_new_tokens,
        out == prompt_ids || out.len() <= model.config.max_position_embeddings,
        forall|i: int|
            prompt_ids.len() <= i < out.len() - 1 ==> model.eos_token_id != Some(#[trigger] out[i]),
        out.len() < prompt_ids.len() + max_new_tokens ==> out.len()
            >= model.config.max_position_embeddings || (out.len() > prompt_ids.len()
            && model.eos_token_id == Some(out.last())),
{
    lemma_generation(
        |ids: Seq<u32>, token: u32| model.may_pick(ids, &kernels, token),
        Some(model.config.max_position_embeddings),
        model.eos_token_id,
        prompt_ids,
        max_new_tokens,
        out,
    );
    if out.len() == prompt_ids.len() {
        assert(out.take(prompt_ids.len() as int) =~= out);
    }
    assert(prompt_ids =~= out.take(prompt_ids.len() as int));
}

} // verus!
