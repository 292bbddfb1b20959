//! What a T5 encoder and decoder amount to where elements compute without
//! rounding.

use vstd::arithmetic::div_mod::lemma_fundamental_div_mod_converse;
use vstd::prelude::*;
use core::ops::{Add, Mul};
use crate::exact::{
    activates, at, is_exact, is_null, lemma_elementwise_product, lemma_elementwise_sum,
    lemma_linear, lemma_lookup, lemma_null_weight, lemma_product_t, lemma_rms_normed_row,
    lemma_same_cells, lemma_total_eq, same_matrix, total, weighted,
};
use crate::models::forward::is_lookup;
use crate::models::generate::{lemma_argmax_is_greatest, lemma_generation, ordered_by};
use crate::models::t5::forward::{
    AttentionTrace, DecoderLayerTrace, EncoderLayerTrace, FfnTrace, T5Kernels,
    bias_for_layer, cross_attention_gives, decode_gives, decoder_layer_fits, decoder_layer_gives,
    decoder_layer_may_give, decoder_layers_give, decoder_states_give, decoder_table, encode_gives,
    encoder_layer_fits, encoder_layer_gives, encoder_layer_may_give, encoder_layers_give,
    encoder_table, ffn_fits, ffn_gives, greedy_gives, is_token_of, kernels_fit, last_row, model_fits,
    next_token_gives, position_bias_gives, projections_fit, self_attention_gives,
};
use crate::models::t5::{
    T5Config, T5CrossAttention, T5DecoderLayer, T5EncoderLayer, T5Ffn, T5Model, T5SelfAttention,
    biases_of, bucket_gives, buckets_give, is_relative_bias,
};
use crate::num::{lemma_cell_index, lemma_row_bounds, lemma_row_of_index, row_of};
use crate::ops::attention::heads_divide;
use crate::ops::attention::meaning::{
    lemma_queries_look_at_keys, lemma_single_position, looks_at, weighs_single_with_one,
};
use crate::ops::attention::queries::size_of_attention;
use crate::ops::matmul::product_t_gives;
use crate::ops::rms_norm::{is_rms_norm, row_scales};
use crate::tensor::{Tensor, lemma_product_2, lemma_product_3};

verus! {

/// An input with a row for each position.
pub open spec fn is_input<T>(x: Tensor<T>) -> bool {
    x.wf() && x.dims().len() == 2 && x.dims()[1] > 0
}

/// The bias for a head, a position and a key, if there is one.
pub open spec fn bias_at<T>(
    value: spec_fn(T) -> int,
    bias: Option<&Tensor<T>>,
    n: int,
    h: int,
    i: int,
    j: int,
) -> int {
    match bias {
        Some(b) => value(b.elems()[(h * n + i) * n + j]),
        None => 0,
    }
}

proof fn lemma_width(inner: usize, heads: usize)
    requires
        inner > 0,
        heads_divide(inner, heads),
    ensures
        heads * (inner / heads) == inner,
        inner / heads > 0,
{
    assert(heads * (inner / heads) == inner && inner / heads > 0) by (nonlinear_arith)
        requires
            inner > 0,
            heads > 0,
            inner % heads == 0,
    ;
}

/// Self-attention works on the normalized input: queries, keys and values are its
/// rows times the weights for each, every position of every head looks at the
/// positions up to its own if attention is causal and at all of them if not, and
/// the bias is added to the scores. What the heads give, projected, is added to the
/// input.
pub proof fn lemma_self_attention<
    T: Default + Add<Output = T> + Mul<Output = T>,
    N: Fn(&[T], &[T], T) -> Vec<T>,
    S: Fn(&[T]) -> Vec<T>,
    F: Fn(usize) -> T,
    G: Fn(T) -> T,
    R: Fn(T) -> T,
    D: Fn(usize, usize, usize, usize) -> usize,
>(
    value: spec_fn(T) -> int,
    out: Tensor<T>,
    x: Tensor<T>,
    attn: T5SelfAttention<T>,
    ln: Tensor<T>,
    config: T5Config<T>,
    bias: Option<&Tensor<T>>,
    causal: bool,
    kernels: T5Kernels<N, S, F, G, R, D>,
    t: AttentionTrace<T>,
    i: int,
    h: int,
    c: int,
    o: int,
)
    requires
        is_exact(value),
        kernels_fit(kernels),
        is_input(x),
        projections_fit(attn.q_w, attn.k_w, attn.v_w, attn.o_w, x.dims()[1], config.num_heads),
        attn.q_w.dims()[0] > 0,
        bias matches Some(b) ==> b.wf() && b.dims() == seq![
            config.num_heads,
            x.dims()[0],
            x.dims()[0],
        ],
        self_attention_gives(out, x, attn, ln, config, bias, causal, kernels, t),
        0 <= i < x.dims()[0],
        0 <= h < config.num_heads,
        0 <= c < attn.q_w.dims()[0],
        0 <= o < x.dims()[1],
    ensures
        row_scales(
            kernels.norm,
            row_of(x.elems(), x.dims()[1] as int, i),
            ln.elems(),
            config.layer_norm_eps,
            row_of(t.normed.elems(), x.dims()[1] as int, i),
        ),
        at(value, t.q, i, c) == weighted(value, t.normed, i, attn.q_w, c),
        at(value, t.k, i, c) == weighted(value, t.normed, i, attn.k_w, c),
        at(value, t.v, i, c) == weighted(value, t.normed, i, attn.v_w, c),
        t.heads.dims() == seq![x.dims()[0], attn.q_w.dims()[0]],
        call_ensures(
            kernels.score_factor,
            ((attn.q_w.dims()[0] / config.num_heads),),
            t.factor,
        ),
        looks_at(
            value,
            t.heads.elems(),
            t.q.elems(),
            t.k.elems(),
            t.v.elems(),
            attn.q_w.dims()[0] as int,
            (attn.q_w.dims()[0] / config.num_heads) as int,
            h,
            i,
            if causal {
                i + 1
            } else {
                x.dims()[0] as int
            },
            |j: int| bias_at(value, bias, x.dims()[0] as int, h, i, j),
            t.factor,
            kernels.softmax,
        ),
        out.dims() == x.dims(),
        at(value, out, i, o) == at(value, x, i, o) + weighted(value, t.heads, i, attn.o_w, o),
{
    let n = x.dims()[0] as int;
    lemma_product_2(x.dims());
    lemma_rms_normed_row(t.normed, x, ln, config.layer_norm_eps, kernels.norm, i);
    lemma_linear(value, t.q, t.normed, attn.q_w, None, i, c);
    lemma_linear(value, t.k, t.normed, attn.k_w, None, i, c);
    lemma_linear(value, t.v, t.normed, attn.v_w, None, i, c);
    lemma_linear(value, t.proj, t.heads, attn.o_w, None, i, o);
    assert(t.proj.dims() =~= x.dims());
    lemma_elementwise_sum(value, out, x, t.proj, i, o);
    lemma_width(attn.q_w.dims()[0], config.num_heads);
    let size = size_of_attention(t.q, t.k, config.num_heads);
    let b = match bias {
        None => None,
        Some(b) => Some(b.elems()),
    };
    if let Some(b) = bias {
        lemma_product_3(b.dims());
    }
    lemma_queries_look_at_keys(
        value,
        t.heads.elems(),
        t.q.elems(),
        t.k.elems(),
        t.v.elems(),
        size,
        b,
        causal,
        t.factor,
        kernels.softmax,
        h,
        i,
    );
    let f = |j: int|
        match b {
            Some(b) => value(b[(h * size.rows + i) * size.cols + j]),
            None => 0,
        };
    let g = |j: int| bias_at(value, bias, n, h, i, j);
    assert(f =~= g);
}

/// Cross-attention: queries are the normalized input times their weight, keys and
/// values the encoder's output times theirs, and every position of every head looks
/// at all of the encoder's positions. What the heads give, projected, is added to
/// the input.
pub proof fn lemma_cross_attention<
    T: Default + Add<Output = T> + Mul<Output = T>,
    N: Fn(&[T], &[T], T) -> Vec<T>,
    S: Fn(&[T]) -> Vec<T>,
    F: Fn(usize) -> T,
    G: Fn(T) -> T,
    R: Fn(T) -> T,
    D: Fn(usize, usize, usize, usize) -> usize,
>(
    value: spec_fn(T) -> int,
    out: Tensor<T>,
    x: Tensor<T>,
    attn: T5CrossAttention<T>,
    ln: Tensor<T>,
    encoder_out: Tensor<T>,
    config: T5Config<T>,
    kernels: T5Kernels<N, S, F, G, R, D>,
    t: AttentionTrace<T>,
    i: int,
    j: int,
    h: int,
    c: int,
    o: int,
)
    requires
        is_exact(value),
        kernels_fit(kernels),
        is_input(x),
        is_input(encoder_out),
        encoder_out.dims()[1] == x.dims()[1],
        projections_fit(attn.q_w, attn.k_w, attn.v_w, attn.o_w, x.dims()[1], config.num_heads),
        attn.q_w.dims()[0] > 0,
        cross_attention_gives(out, x, attn, ln, encoder_out, config, kernels, t),
        0 <= i < x.dims()[0],
        0 <= j < encoder_out.dims()[0],
        0 <= h < config.num_heads,
        0 <= c < attn.q_w.dims()[0],
        0 <= o < x.dims()[1],
    ensures
        row_scales(
            kernels.norm,
            row_of(x.elems(), x.dims()[1] as int, i),
            ln.elems(),
            config.layer_norm_eps,
            row_of(t.normed.elems(), x.dims()[1] as int, i),
        ),
        at(value, t.q, i, c) == weighted(value, t.normed, i, attn.q_w, c),
        at(value, t.k, j, c) == weighted(value, encoder_out, j, attn.k_w, c),
        at(value, t.v, j, c) == weighted(value, encoder_out, j, attn.v_w, c),
        t.heads.dims() == seq![x.dims()[0], attn.q_w.dims()[0]],
        call_ensures(
            kernels.score_factor,
            ((attn.q_w.dims()[0] / config.num_heads),),
            t.factor,
        ),
        looks_at(
            value,
            t.heads.elems(),
            t.q.elems(),
            t.k.elems(),
            t.v.elems(),
            attn.q_w.dims()[0] as int,
            (attn.q_w.dims()[0] / config.num_heads) as int,
            h,
            i,
            encoder_out.dims()[0] as int,
            |j: int| 0,
            t.factor,
            kernels.softmax,
        ),
        out.dims() == x.dims(),
        at(value, out, i, o) == at(value, x, i, o) + weighted(value, t.heads, i, attn.o_w, o),
{
    lemma_product_2(x.dims());
    lemma_rms_normed_row(t.normed, x, ln, config.layer_norm_eps, kernels.norm, i);
    lemma_linear(value, t.q, t.normed, attn.q_w, None, i, c);
    lemma_linear(value, t.k, encoder_out, attn.k_w, None, j, c);
    lemma_linear(value, t.v, encoder_out, attn.v_w, None, j, c);
    lemma_linear(value, t.proj, t.heads, attn.o_w, None, i, o);
    assert(t.proj.dims() =~= x.dims());
    lemma_elementwise_sum(value, out, x, t.proj, i, o);
    lemma_width(attn.q_w.dims()[0], config.num_heads);
    let size = size_of_attention(t.q, t.k, config.num_heads);
    lemma_queries_look_at_keys(
        value,
        t.heads.elems(),
        t.q.elems(),
        t.k.elems(),
        t.v.elems(),
        size,
        None,
        false,
        t.factor,
        kernels.softmax,
        h,
        i,
    );
    let f = |j: int|
        match None::<Seq<T>> {
            Some(b) => value(b[(h * size.rows + i) * size.cols + j]),
            None => 0,
        };
    let g = |j: int| 0int;
    assert(f =~= g);
}

/// The inner element number `f` of a feed-forward block, on row `i`: the activated
/// first projection, times the second projection where the block is gated.
pub open spec fn inner_gives<
    T: Default,
    N: Fn(&[T], &[T], T) -> Vec<T>,
    S: Fn(&[T]) -> Vec<T>,
    F: Fn(usize) -> T,
    G: Fn(T) -> T,
    R: Fn(T) -> T,
    D: Fn(usize, usize, usize, usize) -> usize,
>(
    value: spec_fn(T) -> int,
    inner: int,
    x: Tensor<T>,
    i: int,
    first: Tensor<T>,
    second: Option<Tensor<T>>,
    kernels: T5Kernels<N, S, F, G, R, D>,
    f: int,
) -> bool {
    match second {
        Some(gate) => exists|active: T|
            activates(value, kernels.gelu, weighted(value, x, i, first, f), active) && inner
                == #[trigger] value(active) * weighted(value, x, i, gate, f),
        None => exists|active: T|
            activates(value, kernels.relu, weighted(value, x, i, first, f), active) && inner
                == #[trigger] value(active),
    }
}

/// A feed-forward block: the inner elements, times the output weight.
pub proof fn lemma_feed_forward<
    T: Default + Add<Output = T> + Mul<Output = T>,
    N: Fn(&[T], &[T], T) -> Vec<T>,
    S: Fn(&[T]) -> Vec<T>,
    F: Fn(usize) -> T,
    G: Fn(T) -> T,
    R: Fn(T) -> T,
    D: Fn(usize, usize, usize, usize) -> usize,
>(
    value: spec_fn(T) -> int,
    out: Tensor<T>,
    x: Tensor<T>,
    ffn: T5Ffn<T>,
    gated: bool,
    kernels: T5Kernels<N, S, F, G, R, D>,
    t: FfnTrace<T>,
    i: int,
) -> (inner: Seq<int>)
    requires
        is_exact(value),
        is_input(x),
        ffn_fits(ffn, x.dims()[1], gated),
        ffn_gives(out, x, ffn, gated, kernels, t),
        0 <= i < x.dims()[0],
    ensures
        out.dims() == x.dims(),
        inner.len() == ffn.wi_w.dims()[0],
        forall|f: int|
            0 <= f < inner.len() ==> inner_gives(
                value,
                #[trigger] inner[f],
                x,
                i,
                ffn.wi_w,
                if gated {
                    ffn.wi_gate_w
                } else {
                    None
                },
                kernels,
                f,
            ),
        forall|o: int|
            0 <= o < x.dims()[1] ==> #[trigger] at(value, out, i, o) == total(
                |f: int| inner[f] * at(value, ffn.wo_w, o, f),
                inner.len() as int,
            ),
{
    let wide = ffn.wi_w.dims()[0] as int;
    let d = x.dims()[1] as int;
    let y = if gated {
        t.gated
    } else {
        t.active
    };
    let inner = Seq::new(wide as nat, |f: int| at(value, y, i, f));
    lemma_product_2(t.inner.dims());
    assert forall|f: int| 0 <= f < inner.len() implies inner_gives(
        value,
        #[trigger] inner[f],
        x,
        i,
        ffn.wi_w,
        if gated {
            ffn.wi_gate_w
        } else {
            None
        },
        kernels,
        f,
    ) by {
        lemma_linear(value, t.inner, x, ffn.wi_w, None, i, f);
        lemma_cell_index(i, f, x.dims()[0] as int, wide);
        let p = i * wide + f;
        let active = t.active.elems()[p];
        if gated {
            let gate = ffn.wi_gate_w->0;
            assert(call_ensures(kernels.gelu, (t.inner.elems()[p],), active));
            lemma_linear(value, t.gate, x, gate, None, i, f);
            assert(t.gate.dims() =~= t.active.dims());
            lemma_elementwise_product(value, t.gated, t.active, t.gate, i, f);
            assert(activates(value, kernels.gelu, weighted(value, x, i, ffn.wi_w, f), active));
            assert(inner[f] == value(active) * weighted(value, x, i, gate, f));
        } else {
            assert(call_ensures(kernels.relu, (t.inner.elems()[p],), active));
            assert(activates(value, kernels.relu, weighted(value, x, i, ffn.wi_w, f), active));
            assert(inner[f] == value(active));
        }
    }
    assert forall|o: int| 0 <= o < d implies #[trigger] at(value, out, i, o) == total(
        |f: int| inner[f] * at(value, ffn.wo_w, o, f),
        wide,
    ) by {
        lemma_linear(value, out, y, ffn.wo_w, None, i, o);
        lemma_total_eq(
            |l: int| at(value, y, i, l) * at(value, ffn.wo_w, o, l),
            |f: int| inner[f] * at(value, ffn.wo_w, o, f),
            wide,
        );
    }
    assert(out.dims() =~= x.dims());
    inner
}

/// An encoder block and an input that fits it.
pub open spec fn encoder_block_takes<T>(
    x: Tensor<T>,
    layer: T5EncoderLayer<T>,
    config: T5Config<T>,
    bias: Option<&Tensor<T>>,
) -> bool {
    &&& is_input(x)
    &&& encoder_layer_fits(layer, x.dims()[1], config)
    &&& layer.self_attn.q_w.dims()[0] > 0
    &&& bias matches Some(b) ==> b.wf() && b.dims() == seq![
        config.num_heads,
        x.dims()[0],
        x.dims()[0],
    ]
}

/// An encoder block adds two things to its input: what attention gives, projected,
/// and what the feed-forward block makes of the normalized sum of both.
pub proof fn lemma_encoder_block_adds<
    T: Default + Add<Output = T> + Mul<Output = T>,
    N: Fn(&[T], &[T], T) -> Vec<T>,
    S: Fn(&[T]) -> Vec<T>,
    F: Fn(usize) -> T,
    G: Fn(T) -> T,
    R: Fn(T) -> T,
    D: Fn(usize, usize, usize, usize) -> usize,
>(
    value: spec_fn(T) -> int,
    out: Tensor<T>,
    x: Tensor<T>,
    layer: T5EncoderLayer<T>,
    config: T5Config<T>,
    bias: Option<&Tensor<T>>,
    kernels: T5Kernels<N, S, F, G, R, D>,
    t: EncoderLayerTrace<T>,
    i: int,
    o: int,
)
    requires
        is_exact(value),
        kernels_fit(kernels),
        encoder_block_takes(x, layer, config, bias),
        encoder_layer_gives(out, x, layer, config, bias, kernels, t),
        0 <= i < x.dims()[0],
        0 <= o < x.dims()[1],
    ensures
        out.dims() == x.dims(),
        self_attention_gives(
            t.middle,
            x,
            layer.self_attn,
            layer.self_attn_ln,
            config,
            bias,
            false,
            kernels,
            t.attn,
        ),
        at(value, out, i, o) == at(value, x, i, o) + weighted(
            value,
            t.attn.heads,
            i,
            layer.self_attn.o_w,
            o,
        ) + at(value, t.ffn_out, i, o),
        row_scales(
            kernels.norm,
            row_of(t.middle.elems(), x.dims()[1] as int, i),
            layer.ffn_ln.elems(),
            config.layer_norm_eps,
            row_of(t.normed.elems(), x.dims()[1] as int, i),
        ),
        ffn_gives(t.ffn_out, t.normed, layer.ffn, config.is_gated_act, kernels, t.ffn),
        is_input(t.normed),
        t.normed.dims() == x.dims(),
{
    lemma_self_attention(
        value,
        t.middle,
        x,
        layer.self_attn,
        layer.self_attn_ln,
        config,
        bias,
        false,
        kernels,
        t.attn,
        i,
        0,
        0,
        o,
    );
    lemma_rms_normed_row(
        t.normed,
        t.middle,
        layer.ffn_ln,
        config.layer_norm_eps,
        kernels.norm,
        i,
    );
    let inner = lemma_feed_forward(
        value,
        t.ffn_out,
        t.normed,
        layer.ffn,
        config.is_gated_act,
        kernels,
        t.ffn,
        i,
    );
    lemma_elementwise_sum(value, out, t.middle, t.ffn_out, i, o);
}

/// A decoder block and inputs that fit it.
pub open spec fn decoder_block_takes<T>(
    x: Tensor<T>,
    layer: T5DecoderLayer<T>,
    encoder_out: Tensor<T>,
    config: T5Config<T>,
    bias: Option<&Tensor<T>>,
) -> bool {
    &&& is_input(x)
    &&& is_input(encoder_out)
    &&& encoder_out.dims()[0] > 0
    &&& encoder_out.dims()[1] == x.dims()[1]
    &&& decoder_layer_fits(layer, x.dims()[1], config)
    &&& layer.self_attn.q_w.dims()[0] > 0
    &&& layer.cross_attn.q_w.dims()[0] > 0
    &&& bias matches Some(b) ==> b.wf() && b.dims() == seq![
        config.num_heads,
        x.dims()[0],
        x.dims()[0],
    ]
}

/// A decoder block adds three things to its input: what self-attention gives,
/// projected, what cross-attention gives, projected, and what the feed-forward
/// block makes of the normalized sum of all before it.
pub proof fn lemma_decoder_block_adds<
    T: Default + Add<Output = T> + Mul<Output = T>,
    N: Fn(&[T], &[T], T) -> Vec<T>,
    S: Fn(&[T]) -> Vec<T>,
    F: Fn(usize) -> T,
    G: Fn(T) -> T,
    R: Fn(T) -> T,
    D: Fn(usize, usize, usize, usize) -> usize,
>(
    value: spec_fn(T) -> int,
    out: Tensor<T>,
    x: Tensor<T>,
    layer: T5DecoderLayer<T>,
    encoder_out: Tensor<T>,
    config: T5Config<T>,
    bias: Option<&Tensor<T>>,
    kernels: T5Kernels<N, S, F, G, R, D>,
    t: DecoderLayerTrace<T>,
    i: int,
    o: int,
)
    requires
        is_exact(value),
        kernels_fit(kernels),
        decoder_block_takes(x, layer, encoder_out, config, bias),
        decoder_layer_gives(out, x, layer, encoder_out, config, bias, kernels, t),
        0 <= i < x.dims()[0],
        0 <= o < x.dims()[1],
    ensures
        out.dims() == x.dims(),
        self_attention_gives(
            t.after_self,
            x,
            layer.self_attn,
            layer.self_attn_ln,
            config,
            bias,
            true,
            kernels,
            t.attn,
        ),
        at(value, t.after_self, i, o) == at(value, x, i, o) + weighted(
            value,
            t.attn.heads,
            i,
            layer.self_attn.o_w,
            o,
        ),
        cross_attention_gives(
            t.after_cross,
            t.after_self,
            layer.cross_attn,
            layer.cross_attn_ln,
            encoder_out,
            config,
            kernels,
            t.cross,
        ),
        at(value, t.after_cross, i, o) == at(value, x, i, o) + weighted(
            value,
            t.attn.heads,
            i,
            layer.self_attn.o_w,
            o,
        ) + weighted(value, t.cross.heads, i, layer.cross_attn.o_w, o),
        at(value, out, i, o) == at(value, x, i, o) + weighted(
            value,
            t.attn.heads,
            i,
            layer.self_attn.o_w,
            o,
        ) + weighted(value, t.cross.heads, i, layer.cross_attn.o_w, o) + at(
            value,
            t.ffn_out,
            i,
            o,
        ),
        row_scales(
            kernels.norm,
            row_of(t.after_cross.elems(), x.dims()[1] as int, i),
            layer.ffn_ln.elems(),
            config.layer_norm_eps,
            row_of(t.normed.elems(), x.dims()[1] as int, i),
        ),
        ffn_gives(t.ffn_out, t.normed, layer.ffn, config.is_gated_act, kernels, t.ffn),
        is_input(t.normed),
        t.normed.dims() == x.dims(),
        is_input(t.after_self),
        t.after_self.dims() == x.dims(),
{
    lemma_self_attention(
        value,
        t.after_self,
        x,
        layer.self_attn,
        layer.self_attn_ln,
        config,
        bias,
        true,
        kernels,
        t.attn,
        i,
        0,
        0,
        o,
    );
    lemma_cross_attention(
        value,
        t.after_cross,
        t.after_self,
        layer.cross_attn,
        layer.cross_attn_ln,
        encoder_out,
        config,
        kernels,
        t.cross,
        i,
        0,
        0,
        0,
        o,
    );
    lemma_rms_normed_row(
        t.normed,
        t.after_cross,
        layer.ffn_ln,
        config.layer_norm_eps,
        kernels.norm,
        i,
    );
    let inner = lemma_feed_forward(
        value,
        t.ffn_out,
        t.normed,
        layer.ffn,
        config.is_gated_act,
        kernels,
        t.ffn,
        i,
    );
    lemma_elementwise_sum(value, out, t.after_cross, t.ffn_out, i, o);
}

/// A feed-forward block whose output weight is zero gives zero.
proof fn lemma_null_feed_forward<
    T: Default + Add<Output = T> + Mul<Output = T>,
    N: Fn(&[T], &[T], T) -> Vec<T>,
    S: Fn(&[T]) -> Vec<T>,
    F: Fn(usize) -> T,
    G: Fn(T) -> T,
    R: Fn(T) -> T,
    D: Fn(usize, usize, usize, usize) -> usize,
>(
    value: spec_fn(T) -> int,
    out: Tensor<T>,
    x: Tensor<T>,
    ffn: T5Ffn<T>,
    gated: bool,
    kernels: T5Kernels<N, S, F, G, R, D>,
    t: FfnTrace<T>,
    i: int,
    o: int,
)
    requires
        is_exact(value),
        is_input(x),
        ffn_fits(ffn, x.dims()[1], gated),
        ffn_gives(out, x, ffn, gated, kernels, t),
        is_null(value, ffn.wo_w),
        0 <= i < x.dims()[0],
        0 <= o < x.dims()[1],
    ensures
        at(value, out, i, o) == 0,
{
    let y = if gated {
        t.gated
    } else {
        t.active
    };
    lemma_product_2(t.inner.dims());
    lemma_linear(value, out, y, ffn.wo_w, None, i, o);
    lemma_null_weight(value, y, i, ffn.wo_w, o);
}

/// Where the output weight of the feed-forward block is zero, a decoder block gives
/// its input plus the two attention projections.
pub proof fn lemma_decoder_block_without_feed_forward<
    T: Default + Add<Output = T> + Mul<Output = T>,
    N: Fn(&[T], &[T], T) -> Vec<T>,
    S: Fn(&[T]) -> Vec<T>,
    F: Fn(usize) -> T,
    G: Fn(T) -> T,
    R: Fn(T) -> T,
    D: Fn(usize, usize, usize, usize) -> usize,
>(
    value: spec_fn(T) -> int,
    out: Tensor<T>,
    x: Tensor<T>,
    layer: T5DecoderLayer<T>,
    encoder_out: Tensor<T>,
    config: T5Config<T>,
    bias: Option<&Tensor<T>>,
    kernels: T5Kernels<N, S, F, G, R, D>,
)
    requires
        is_exact(value),
        kernels_fit(kernels),
        decoder_block_takes(x, layer, encoder_out, config, bias),
        decoder_layer_may_give(out, x, layer, encoder_out, config, bias, kernels),
        is_null(value, layer.ffn.wo_w),
    ensures
        exists|middle: Tensor<T>, attn: AttentionTrace<T>, sum: Tensor<T>, cross: AttentionTrace<T>|
            #![trigger self_attention_gives(middle, x, layer.self_attn, layer.self_attn_ln, config, bias, true, kernels, attn), cross_attention_gives(sum, middle, layer.cross_attn, layer.cross_attn_ln, encoder_out, config, kernels, cross)]
            self_attention_gives(
                middle,
                x,
                layer.self_attn,
                layer.self_attn_ln,
                config,
                bias,
                true,
                kernels,
                attn,
            ) && cross_attention_gives(
                sum,
                middle,
                layer.cross_attn,
                layer.cross_attn_ln,
                encoder_out,
                config,
                kernels,
                cross,
            ) && forall|i: int, o: int|
                0 <= i < x.dims()[0] && 0 <= o < x.dims()[1] ==> #[trigger] at(value, out, i, o)
                    == at(value, x, i, o) + weighted(
                    value,
                    attn.heads,
                    i,
                    layer.self_attn.o_w,
                    o,
                ) + weighted(value, cross.heads, i, layer.cross_attn.o_w, o),
{
    let t = choose|t: DecoderLayerTrace<T>| #[trigger]
        decoder_layer_gives(out, x, layer, encoder_out, config, bias, kernels, t);
    assert forall|i: int, o: int|
        0 <= i < x.dims()[0] && 0 <= o < x.dims()[1] implies #[trigger] at(value, out, i, o) == at(
        value,
        x,
        i,
        o,
    ) + weighted(value, t.attn.heads, i, layer.self_attn.o_w, o) + weighted(
        value,
        t.cross.heads,
        i,
        layer.cross_attn.o_w,
        o,
    ) by {
        lemma_decoder_block_adds(
            value,
            out,
            x,
            layer,
            encoder_out,
            config,
            bias,
            kernels,
            t,
            i,
            o,
        );
        lemma_null_feed_forward(
            value,
            t.ffn_out,
            t.normed,
            layer.ffn,
            config.is_gated_act,
            kernels,
            t.ffn,
            i,
            o,
        );
    }
}

/// A decoder block whose output weights are all zero gives its input.
pub proof fn lemma_null_decoder_block_keeps_input<
    T: Default + Add<Output = T> + Mul<Output = T>,
    N: Fn(&[T], &[T], T) -> Vec<T>,
    S: Fn(&[T]) -> Vec<T>,
    F: Fn(usize) -> T,
    G: Fn(T) -> T,
    R: Fn(T) -> T,
    D: Fn(usize, usize, usize, usize) -> usize,
>(
    value: spec_fn(T) -> int,
    out: Tensor<T>,
    x: Tensor<T>,
    layer: T5DecoderLayer<T>,
    encoder_out: Tensor<T>,
    config: T5Config<T>,
    bias: Option<&Tensor<T>>,
    kernels: T5Kernels<N, S, F, G, R, D>,
)
    requires
        is_exact(value),
        kernels_fit(kernels),
        decoder_block_takes(x, layer, encoder_out, config, bias),
        decoder_layer_may_give(out, x, layer, encoder_out, config, bias, kernels),
        is_null(value, layer.self_attn.o_w),
        is_null(value, layer.cross_attn.o_w),
        is_null(value, layer.ffn.wo_w),
    ensures
        same_matrix(out, x),
{
    let t = choose|t: DecoderLayerTrace<T>| #[trigger]
        decoder_layer_gives(out, x, layer, encoder_out, config, bias, kernels, t);
    assert(out.dims() == x.dims());
    assert forall|i: int, o: int|
        0 <= i < out.dims()[0] && 0 <= o < out.dims()[1] implies #[trigger] at(value, out, i, o)
        == at(value, x, i, o) by {
        lemma_decoder_block_adds(
            value,
            out,
            x,
            layer,
            encoder_out,
            config,
            bias,
            kernels,
            t,
            i,
            o,
        );
        lemma_null_feed_forward(
            value,
            t.ffn_out,
            t.normed,
            layer.ffn,
            config.is_gated_act,
            kernels,
            t.ffn,
            i,
            o,
        );
        lemma_null_weight(value, t.attn.heads, i, layer.self_attn.o_w, o);
        lemma_null_weight(value, t.cross.heads, i, layer.cross_attn.o_w, o);
    }
    lemma_same_cells(value, out, x);
}

/// An encoder block whose output weights are both zero gives its input.
pub proof fn lemma_null_encoder_block_keeps_input<
    T: Default + Add<Output = T> + Mul<Output = T>,
    N: Fn(&[T], &[T], T) -> Vec<T>,
    S: Fn(&[T]) -> Vec<T>,
    F: Fn(usize) -> T,
    G: Fn(T) -> T,
    R: Fn(T) -> T,
    D: Fn(usize, usize, usize, usize) -> usize,
>(
    value: spec_fn(T) -> int,
    out: Tensor<T>,
    x: Tensor<T>,
    layer: T5EncoderLayer<T>,
    config: T5Config<T>,
    bias: Option<&Tensor<T>>,
    kernels: T5Kernels<N, S, F, G, R, D>,
)
    requires
        is_exact(value),
        kernels_fit(kernels),
        encoder_block_takes(x, layer, config, bias),
        encoder_layer_may_give(out, x, layer, config, bias, kernels),
        is_null(value, layer.self_attn.o_w),
        is_null(value, layer.ffn.wo_w),
    ensures
        same_matrix(out, x),
{
    let t = choose|t: EncoderLayerTrace<T>| #[trigger]
        encoder_layer_gives(out, x, layer, config, bias, kernels, t);
    assert(out.dims() == x.dims());
    assert forall|i: int, o: int|
        0 <= i < out.dims()[0] && 0 <= o < out.dims()[1] implies #[trigger] at(value, out, i, o)
        == at(value, x, i, o) by {
        lemma_encoder_block_adds(value, out, x, layer, config, bias, kernels, t, i, o);
        lemma_null_feed_forward(
            value,
            t.ffn_out,
            t.normed,
            layer.ffn,
            config.is_gated_act,
            kernels,
            t.ffn,
            i,
            o,
        );
        lemma_null_weight(value, t.attn.heads, i, layer.self_attn.o_w, o);
    }
    lemma_same_cells(value, out, x);
}

/// With a single encoded token, cross-attention adds what that token says,
/// whatever the decoder asks: the encoder's output times the value weight, times
/// the output weight.
pub proof fn lemma_cross_attention_to_single_token<
    T: Default + Add<Output = T> + Mul<Output = T>,
    N: Fn(&[T], &[T], T) -> Vec<T>,
    S: Fn(&[T]) -> Vec<T>,
    F: Fn(usize) -> T,
    G: Fn(T) -> T,
    R: Fn(T) -> T,
    D: Fn(usize, usize, usize, usize) -> usize,
>(
    value: spec_fn(T) -> int,
    out: Tensor<T>,
    x: Tensor<T>,
    attn: T5CrossAttention<T>,
    ln: Tensor<T>,
    encoder_out: Tensor<T>,
    config: T5Config<T>,
    kernels: T5Kernels<N, S, F, G, R, D>,
    t: AttentionTrace<T>,
    i: int,
    o: int,
)
    requires
        is_exact(value),
        kernels_fit(kernels),
        weighs_single_with_one(value, kernels.softmax),
        is_input(x),
        is_input(encoder_out),
        encoder_out.dims()[0] == 1,
        encoder_out.dims()[1] == x.dims()[1],
        projections_fit(attn.q_w, attn.k_w, attn.v_w, attn.o_w, x.dims()[1], config.num_heads),
        attn.q_w.dims()[0] > 0,
        cross_attention_gives(out, x, attn, ln, encoder_out, config, kernels, t),
        0 <= i < x.dims()[0],
        0 <= o < x.dims()[1],
    ensures
        at(value, out, i, o) == at(value, x, i, o) + total(
            |c: int| weighted(value, encoder_out, 0, attn.v_w, c) * at(value, attn.o_w, o, c),
            attn.q_w.dims()[0] as int,
        ),
{
    let inner = attn.q_w.dims()[0] as int;
    let heads = config.num_heads as int;
    let d = (attn.q_w.dims()[0] / config.num_heads) as int;
    lemma_width(attn.q_w.dims()[0], config.num_heads);
    let f = |c: int| at(value, t.heads, i, c) * at(value, attn.o_w, o, c);
    let g = |c: int| weighted(value, encoder_out, 0, attn.v_w, c) * at(value, attn.o_w, o, c);
    assert forall|c: int| 0 <= c < inner implies #[trigger] f(c) == g(c) by {
        lemma_row_of_index(c, heads, d);
        let h = c / d;
        lemma_cross_attention(
            value,
            out,
            x,
            attn,
            ln,
            encoder_out,
            config,
            kernels,
            t,
            i,
            0,
            h,
            c,
            o,
        );
        lemma_single_position(
            value,
            t.heads.elems(),
            t.q.elems(),
            t.k.elems(),
            t.v.elems(),
            inner,
            d,
            h,
            i,
            |j: int| 0,
            t.factor,
            kernels.softmax,
            c % d,
        );
        assert(0 * inner == 0);
    }
    lemma_total_eq(f, g, inner);
    lemma_cross_attention(
        value,
        out,
        x,
        attn,
        ln,
        encoder_out,
        config,
        kernels,
        t,
        i,
        0,
        0,
        0,
        o,
    );
}

/// On a single token, self-attention adds what the token itself says: the
/// normalized input times the value weight, times the output weight. Queries, keys
/// and the position bias make no difference.
pub proof fn lemma_self_attention_of_single_token<
    T: Default + Add<Output = T> + Mul<Output = T>,
    N: Fn(&[T], &[T], T) -> Vec<T>,
    S: Fn(&[T]) -> Vec<T>,
    F: Fn(usize) -> T,
    G: Fn(T) -> T,
    R: Fn(T) -> T,
    D: Fn(usize, usize, usize, usize) -> usize,
>(
    value: spec_fn(T) -> int,
    out: Tensor<T>,
    x: Tensor<T>,
    attn: T5SelfAttention<T>,
    ln: Tensor<T>,
    config: T5Config<T>,
    bias: Option<&Tensor<T>>,
    causal: bool,
    kernels: T5Kernels<N, S, F, G, R, D>,
    t: AttentionTrace<T>,
    o: int,
)
    requires
        is_exact(value),
        kernels_fit(kernels),
        weighs_single_with_one(value, kernels.softmax),
        is_input(x),
        x.dims()[0] == 1,
        projections_fit(attn.q_w, attn.k_w, attn.v_w, attn.o_w, x.dims()[1], config.num_heads),
        attn.q_w.dims()[0] > 0,
        bias matches Some(b) ==> b.wf() && b.dims() == seq![
            config.num_heads,
            x.dims()[0],
            x.dims()[0],
        ],
        self_attention_gives(out, x, attn, ln, config, bias, causal, kernels, t),
        0 <= o < x.dims()[1],
    ensures
        at(value, out, 0, o) == at(value, x, 0, o) + total(
            |c: int| weighted(value, t.normed, 0, attn.v_w, c) * at(value, attn.o_w, o, c),
            attn.q_w.dims()[0] as int,
        ),
{
    let inner = attn.q_w.dims()[0] as int;
    let heads = config.num_heads as int;
    let d = (attn.q_w.dims()[0] / config.num_heads) as int;
    lemma_width(attn.q_w.dims()[0], config.num_heads);
    let f = |c: int| at(value, t.heads, 0, c) * at(value, attn.o_w, o, c);
    let g = |c: int| weighted(value, t.normed, 0, attn.v_w, c) * at(value, attn.o_w, o, c);
    assert forall|c: int| 0 <= c < inner implies #[trigger] f(c) == g(c) by {
        lemma_row_of_index(c, heads, d);
        let h = c / d;
        lemma_self_attention(
            value,
            out,
            x,
            attn,
            ln,
            config,
            bias,
            causal,
            kernels,
            t,
            0,
            h,
            c,
            o,
        );
        lemma_single_position(
            value,
            t.heads.elems(),
            t.q.elems(),
            t.k.elems(),
            t.v.elems(),
            inner,
            d,
            h,
            0,
            |j: int| bias_at(value, bias, 1, h, 0, j),
            t.factor,
            kernels.softmax,
            c % d,
        );
        assert(0 * inner == 0);
    }
    lemma_total_eq(f, g, inner);
    lemma_self_attention(
        value,
        out,
        x,
        attn,
        ln,
        config,
        bias,
        causal,
        kernels,
        t,
        0,
        0,
        0,
        o,
    );
}

/// The bias of a distance, read from the table of one direction, which starts at
/// row `first` and has `width` rows: the lower half of them are for one distance
/// each, the others for greater distances as `step` says, the last of them for all
/// that lie beyond.
pub open spec fn is_bias_of_distance<T, D: Fn(usize, usize, usize, usize) -> usize>(
    bias: T,
    table: Seq<T>,
    heads: int,
    h: int,
    first: int,
    width: int,
    distance: int,
    max_distance: usize,
    step: D,
) -> bool {
    if distance < width / 2 {
        bias == table[(first + distance) * heads + h]
    } else if width / 2 == 0 || max_distance <= width / 2 {
        bias == table[(first + width / 2) * heads + h]
    } else {
        exists|above: usize| #[trigger]
            call_ensures(
                step,
                (
                    distance as usize,
                    (width / 2) as usize,
                    max_distance,
                    (width - width / 2) as usize,
                ),
                above,
            ) && if above < width - width / 2 {
                bias == table[(first + width / 2 + above) * heads + h]
            } else {
                bias == table[(first + width - 1) * heads + h]
            }
    }
}

/// The bias for a head, a query and a key is the one that the table has for the
/// head and for how far the key lies from the query. In both directions the lower
/// half of the table is for keys that do not follow the query, the upper half for
/// those that do. In one direction the table is for keys that do not follow, and
/// those that do are at distance zero.
pub proof fn lemma_bias_is_read<T, D: Fn(usize, usize, usize, usize) -> usize>(
    out: Tensor<T>,
    table: Tensor<T>,
    q_len: usize,
    k_len: usize,
    bidirectional: bool,
    num_buckets: usize,
    max_distance: usize,
    step: D,
    h: int,
    q: int,
    k: int,
)
    requires
        is_relative_bias(
            out,
            table,
            q_len,
            k_len,
            bidirectional,
            num_buckets,
            max_distance,
            step,
        ),
        q_len <= i32::MAX,
        k_len <= i32::MAX,
        0 <= h < table.dims().last(),
        0 <= q < q_len,
        0 <= k < k_len,
    ensures
        is_bias_of_distance(
            out.elems()[(h * q_len + q) * k_len + k],
            table.elems(),
            table.dims().last() as int,
            h,
            if bidirectional && q < k {
                num_buckets as int / 2
            } else {
                0
            },
            if bidirectional {
                num_buckets as int / 2
            } else {
                num_buckets as int
            },
            if q >= k {
                q - k
            } else if bidirectional {
                k - q
            } else {
                0
            },
            max_distance,
            step,
        ),
{
    let heads = table.dims().last() as int;
    let (m, n) = (q_len as int, k_len as int);
    let buckets = choose|buckets: Seq<usize>| #[trigger]
        buckets_give(buckets, m, n, bidirectional, num_buckets as int, max_distance, step)
            && out.elems() == biases_of(table.elems(), heads, buckets);
    let c = q * n + k;
    let cell = (h * m + q) * n + k;
    let len = m * n;
    assert(cell == h * len + c) by (nonlinear_arith)
        requires
            cell == (h * m + q) * n + k,
            len == m * n,
            c == q * n + k,
    ;
    lemma_cell_index(q, k, m, n);
    lemma_cell_index(h, c, heads, len);
    lemma_fundamental_div_mod_converse(c, n, q, k);
    lemma_fundamental_div_mod_converse(cell, len, h, c);
    assert(bucket_gives(
        (k - q) as i32,
        bidirectional,
        num_buckets as int,
        max_distance,
        step,
        buckets[c] as int,
    ));
    assert(out.elems()[cell] == table.elems()[buckets[c] * heads + h]);
}

/// The position bias of an encoder of `n` positions: none where the first block has
/// no table, else what its table has in both directions.
pub open spec fn is_encoder_bias<T, D: Fn(usize, usize, usize, usize) -> usize>(
    bias: Option<Tensor<T>>,
    model: T5Model<T>,
    n: int,
    step: D,
) -> bool {
    let c = model.config;
    if model.encoder_layers@.len() > 0 && model.encoder_layers@[0].self_attn.rel_bias is Some {
        let table = model.encoder_layers@[0].self_attn.rel_bias->0;
        bias is Some && forall|h: int, q: int, k: int|
            0 <= h < table.dims().last() && 0 <= q < n && 0 <= k < n ==> is_bias_of_distance(
                #[trigger] bias->0.elems()[(h * n + q) * n + k],
                table.elems(),
                table.dims().last() as int,
                h,
                if q < k {
                    c.relative_attention_num_buckets as int / 2
                } else {
                    0
                },
                c.relative_attention_num_buckets as int / 2,
                if q < k {
                    k - q
                } else {
                    q - k
                },
                c.relative_attention_max_distance,
                step,
            )
    } else {
        bias is None
    }
}

/// The position bias of a decoder of `n` positions: none where the first block has
/// no table, else what its table has in one direction.
pub open spec fn is_decoder_bias<T, D: Fn(usize, usize, usize, usize) -> usize>(
    bias: Option<Tensor<T>>,
    model: T5Model<T>,
    n: int,
    step: D,
) -> bool {
    let c = model.config;
    if model.decoder_layers@.len() > 0 && model.decoder_layers@[0].self_attn.rel_bias is Some {
        let table = model.decoder_layers@[0].self_attn.rel_bias->0;
        bias is Some && forall|h: int, q: int, k: int|
            0 <= h < table.dims().last() && 0 <= q < n && 0 <= k < n ==> is_bias_of_distance(
                #[trigger] bias->0.elems()[(h * n + q) * n + k],
                table.elems(),
                table.dims().last() as int,
                h,
                0,
                c.relative_attention_num_buckets as int,
                if q < k {
                    0
                } else {
                    q - k
                },
                c.relative_attention_max_distance,
                step,
            )
    } else {
        bias is None
    }
}

/// The encoder starts with the embeddings of the tokens. Every block works on the
/// state that the one before left, the first of them with the position bias, and
/// the last state is normalized.
pub proof fn lemma_encoder_is_a_chain<
    T: Default + Add<Output = T> + Mul<Output = T>,
    N: Fn(&[T], &[T], T) -> Vec<T>,
    S: Fn(&[T]) -> Vec<T>,
    F: Fn(usize) -> T,
    G: Fn(T) -> T,
    R: Fn(T) -> T,
    D: Fn(usize, usize, usize, usize) -> usize,
>(
    value: spec_fn(T) -> int,
    out: Tensor<T>,
    model: T5Model<T>,
    ids: Seq<u32>,
    kernels: T5Kernels<N, S, F, G, R, D>,
)
    requires
        model_fits(model),
        ids.len() <= i32::MAX,
        encode_gives(out, model, ids, kernels),
    ensures
        exists|states: Seq<Tensor<T>>, bias: Option<Tensor<T>>|
            #![trigger states.len(), bias is Some]
            states.len() == model.encoder_layers@.len() + 1 && is_encoder_bias(
                bias,
                model,
                ids.len() as int,
                kernels.step,
            ) && (forall|i: int, j: int|
                0 <= i < ids.len() && 0 <= j < model.shared_emb.dims()[1] ==> #[trigger] at(
                    value,
                    states[0],
                    i,
                    j,
                ) == at(value, model.shared_emb, ids[i] as int, j)) && (forall|i: int|
                0 <= i < model.encoder_layers@.len() ==> encoder_layer_may_give(
                    states[i + 1],
                    states[i],
                    #[trigger] model.encoder_layers@[i],
                    model.config,
                    if i == 0 && bias is Some {
                        Some(&bias->0)
                    } else {
                        None
                    },
                    kernels,
                )) && forall|i: int|
                0 <= i < ids.len() ==> row_scales(
                    kernels.norm,
                    row_of(
                        states[model.encoder_layers@.len() as int].elems(),
                        model.shared_emb.dims()[1] as int,
                        i,
                    ),
                    model.encoder_final_ln.elems(),
                    model.config.layer_norm_eps,
                    #[trigger] row_of(out.elems(), model.shared_emb.dims()[1] as int, i),
                ),
{
    let (states, bias) = choose|states: Seq<Tensor<T>>, bias: Option<Tensor<T>>| #[trigger]
        encoder_layers_give(states, model, bias, kernels) && states.len()
            == model.encoder_layers@.len() + 1 && is_lookup(states[0], ids, model.shared_emb)
            && position_bias_gives(
            bias,
            encoder_table(model),
            ids.len(),
            true,
            model.config,
            kernels.step,
        ) && is_rms_norm(
            out,
            states.last(),
            model.encoder_final_ln,
            model.config.layer_norm_eps,
            kernels.norm,
        );
    assert forall|i: int, j: int|
        0 <= i < ids.len() && 0 <= j < model.shared_emb.dims()[1] implies #[trigger] at(
        value,
        states[0],
        i,
        j,
    ) == at(value, model.shared_emb, ids[i] as int, j) by {
        lemma_lookup(value, states[0], ids, model.shared_emb, i, j);
    }
    lemma_encoder_states_keep_shape(states, model, bias, kernels, states.len() - 1);
    assert forall|i: int| 0 <= i < ids.len() implies row_scales(
        kernels.norm,
        row_of(
            states[model.encoder_layers@.len() as int].elems(),
            model.shared_emb.dims()[1] as int,
            i,
        ),
        model.encoder_final_ln.elems(),
        model.config.layer_norm_eps,
        #[trigger] row_of(out.elems(), model.shared_emb.dims()[1] as int, i),
    ) by {
        lemma_rms_normed_row(
            out,
            states.last(),
            model.encoder_final_ln,
            model.config.layer_norm_eps,
            kernels.norm,
            i,
        );
    }
    if let Some(table) = encoder_table(model) {
        let n = ids.len() as int;
        assert forall|h: int, q: int, k: int|
            0 <= h < table.dims().last() && 0 <= q < n && 0 <= k < n implies is_bias_of_distance(
            #[trigger] bias->0.elems()[(h * n + q) * n + k],
            table.elems(),
            table.dims().last() as int,
            h,
            if q < k {
                model.config.relative_attention_num_buckets as int / 2
            } else {
                0
            },
            model.config.relative_attention_num_buckets as int / 2,
            if q < k {
                k - q
            } else {
                q - k
            },
            model.config.relative_attention_max_distance,
            kernels.step,
        ) by {
            lemma_bias_is_read(
                bias->0,
                table,
                ids.len() as usize,
                ids.len() as usize,
                true,
                model.config.relative_attention_num_buckets,
                model.config.relative_attention_max_distance,
                kernels.step,
                h,
                q,
                k,
            );
        }
    }
    assert(is_encoder_bias(bias, model, ids.len() as int, kernels.step));
    assert(states.len() == model.encoder_layers@.len() + 1);
    assert(bias is Some || bias is None);
}

/// The decoder starts with the embeddings of the decoded tokens. Every block works
/// on the state that the one before left and on the encoder's output, the first of
/// them with the position bias. The last state is normalized, and the logit of a
/// token at a position is that state times the row of the output projection for the
/// token.
pub proof fn lemma_decoder_is_a_chain<
    T: Default + Add<Output = T> + Mul<Output = T>,
    N: Fn(&[T], &[T], T) -> Vec<T>,
    S: Fn(&[T]) -> Vec<T>,
    F: Fn(usize) -> T,
    G: Fn(T) -> T,
    R: Fn(T) -> T,
    D: Fn(usize, usize, usize, usize) -> usize,
>(
    value: spec_fn(T) -> int,
    out: Tensor<T>,
    model: T5Model<T>,
    ids: Seq<u32>,
    encoder_out: Tensor<T>,
    kernels: T5Kernels<N, S, F, G, R, D>,
) -> (hidden: Tensor<T>)
    requires
        is_exact(value),
        model_fits(model),
        ids.len() <= i32::MAX,
        decode_gives(out, model, ids, encoder_out, kernels),
    ensures
        decoder_states_give(hidden, model, ids, encoder_out, kernels),
        exists|states: Seq<Tensor<T>>, bias: Option<Tensor<T>>|
            #![trigger states.len(), bias is Some]
            states.len() == model.decoder_layers@.len() + 1 && is_decoder_bias(
                bias,
                model,
                ids.len() as int,
                kernels.step,
            ) && (forall|i: int, j: int|
                0 <= i < ids.len() && 0 <= j < model.shared_emb.dims()[1] ==> #[trigger] at(
                    value,
                    states[0],
                    i,
                    j,
                ) == at(value, model.shared_emb, ids[i] as int, j)) && (forall|i: int|
                0 <= i < model.decoder_layers@.len() ==> decoder_layer_may_give(
                    states[i + 1],
                    states[i],
                    #[trigger] model.decoder_layers@[i],
                    encoder_out,
                    model.config,
                    if i == 0 && bias is Some {
                        Some(&bias->0)
                    } else {
                        None
                    },
                    kernels,
                )) && forall|i: int|
                0 <= i < ids.len() ==> row_scales(
                    kernels.norm,
                    row_of(
                        states[model.decoder_layers@.len() as int].elems(),
                        model.shared_emb.dims()[1] as int,
                        i,
                    ),
                    model.decoder_final_ln.elems(),
                    model.config.layer_norm_eps,
                    #[trigger] row_of(hidden.elems(), model.shared_emb.dims()[1] as int, i),
                ),
        out.elems().len() == ids.len() * model.lm_head.dims()[0],
        forall|i: int, o: int|
            0 <= i < ids.len() && 0 <= o < model.lm_head.dims()[0] ==> value(
                #[trigger] out.elems()[i * model.lm_head.dims()[0] + o],
            ) == weighted(value, hidden, i, model.lm_head, o),
{
    let d = model.shared_emb.dims()[1] as int;
    let n = model.lm_head.dims()[0] as int;
    let hidden = choose|hidden: Tensor<T>| #[trigger]
        decoder_states_give(hidden, model, ids, encoder_out, kernels) && product_t_gives(
            hidden.elems(),
            model.lm_head.elems(),
            ids.len() as int,
            d,
            n,
            out.elems(),
        );
    let (states, bias) = choose|states: Seq<Tensor<T>>, bias: Option<Tensor<T>>| #[trigger]
        decoder_layers_give(states, model, encoder_out, bias, kernels) && states.len()
            == model.decoder_layers@.len() + 1 && is_lookup(states[0], ids, model.shared_emb)
            && position_bias_gives(
            bias,
            decoder_table(model),
            ids.len(),
            false,
            model.config,
            kernels.step,
        ) && is_rms_norm(
            hidden,
            states.last(),
            model.decoder_final_ln,
            model.config.layer_norm_eps,
            kernels.norm,
        );
    assert forall|i: int, j: int| 0 <= i < ids.len() && 0 <= j < d implies #[trigger] at(
        value,
        states[0],
        i,
        j,
    ) == at(value, model.shared_emb, ids[i] as int, j) by {
        lemma_lookup(value, states[0], ids, model.shared_emb, i, j);
    }
    lemma_states_keep_shape(states, model, encoder_out, bias, kernels, states.len() - 1);
    lemma_product_2(hidden.dims());
    lemma_product_2(model.lm_head.dims());
    assert forall|i: int, o: int|
        0 <= i < ids.len() && 0 <= o < model.lm_head.dims()[0] implies value(
        #[trigger] out.elems()[i * model.lm_head.dims()[0] + o],
    ) == weighted(value, hidden, i, model.lm_head, o) by {
        lemma_product_t(
            value,
            hidden.elems(),
            model.lm_head.elems(),
            ids.len() as int,
            d,
            n,
            out.elems(),
            i,
            o,
        );
        lemma_total_eq(
            |l: int| value(hidden.elems()[i * d + l]) * value(model.lm_head.elems()[o * d + l]),
            |l: int| at(value, hidden, i, l) * at(value, model.lm_head, o, l),
            d,
        );
    }
    assert forall|i: int| 0 <= i < ids.len() implies row_scales(
        kernels.norm,
        row_of(
            states[model.decoder_layers@.len() as int].elems(),
            model.shared_emb.dims()[1] as int,
            i,
        ),
        model.decoder_final_ln.elems(),
        model.config.layer_norm_eps,
        #[trigger] row_of(hidden.elems(), model.shared_emb.dims()[1] as int, i),
    ) by {
        lemma_rms_normed_row(
            hidden,
            states.last(),
            model.decoder_final_ln,
            model.config.layer_norm_eps,
            kernels.norm,
            i,
        );
    }
    if let Some(table) = decoder_table(model) {
        let n = ids.len() as int;
        assert forall|h: int, q: int, k: int|
            0 <= h < table.dims().last() && 0 <= q < n && 0 <= k < n implies is_bias_of_distance(
            #[trigger] bias->0.elems()[(h * n + q) * n + k],
            table.elems(),
            table.dims().last() as int,
            h,
            0,
            model.config.relative_attention_num_buckets as int,
            if q < k {
                0
            } else {
                q - k
            },
            model.config.relative_attention_max_distance,
            kernels.step,
        ) by {
            lemma_bias_is_read(
                bias->0,
                table,
                ids.len() as usize,
                ids.len() as usize,
                false,
                model.config.relative_attention_num_buckets,
                model.config.relative_attention_max_distance,
                kernels.step,
                h,
                q,
                k,
            );
        }
    }
    assert(is_decoder_bias(bias, model, ids.len() as int, kernels.step));
    assert(states.len() == model.decoder_layers@.len() + 1);
    assert(bias is Some || bias is None);
    hidden
}

/// Every state of the encoder has the shape of the first.
proof fn lemma_encoder_states_keep_shape<
    T: Default + Add<Output = T> + Mul<Output = T>,
    N: Fn(&[T], &[T], T) -> Vec<T>,
    S: Fn(&[T]) -> Vec<T>,
    F: Fn(usize) -> T,
    G: Fn(T) -> T,
    R: Fn(T) -> T,
    D: Fn(usize, usize, usize, usize) -> usize,
>(
    states: Seq<Tensor<T>>,
    model: T5Model<T>,
    bias: Option<Tensor<T>>,
    kernels: T5Kernels<N, S, F, G, R, D>,
    i: int,
)
    requires
        states.len() == model.encoder_layers@.len() + 1,
        encoder_layers_give(states, model, bias, kernels),
        0 <= i < states.len(),
    ensures
        states[i].dims() == states[0].dims(),
    decreases i,
{
    if i > 0 {
        lemma_encoder_states_keep_shape(states, model, bias, kernels, i - 1);
        let layer = model.encoder_layers@[i - 1];
        let b = bias_for_layer(&bias, i - 1);
        assert(encoder_layer_may_give(states[i], states[i - 1], layer, model.config, b, kernels));
        let t = choose|t: EncoderLayerTrace<T>| #[trigger]
            encoder_layer_gives(states[i], states[i - 1], layer, model.config, b, kernels, t);
    }
}

/// Every state of the decoder has the shape of the first.
proof fn lemma_states_keep_shape<
    T: Default + Add<Output = T> + Mul<Output = T>,
    N: Fn(&[T], &[T], T) -> Vec<T>,
    S: Fn(&[T]) -> Vec<T>,
    F: Fn(usize) -> T,
    G: Fn(T) -> T,
    R: Fn(T) -> T,
    D: Fn(usize, usize, usize, usize) -> usize,
>(
    states: Seq<Tensor<T>>,
    model: T5Model<T>,
    encoder_out: Tensor<T>,
    bias: Option<Tensor<T>>,
    kernels: T5Kernels<N, S, F, G, R, D>,
    i: int,
)
    requires
        states.len() == model.decoder_layers@.len() + 1,
        decoder_layers_give(states, model, encoder_out, bias, kernels),
        0 <= i < states.len(),
    ensures
        states[i].dims() == states[0].dims(),
    decreases i,
{
    if i > 0 {
        lemma_states_keep_shape(states, model, encoder_out, bias, kernels, i - 1);
        let layer = model.decoder_layers@[i - 1];
        let b = bias_for_layer(&bias, i - 1);
        assert(decoder_layer_may_give(
            states[i],
            states[i - 1],
            layer,
            encoder_out,
            model.config,
            b,
            kernels,
        ));
        let t = choose|t: DecoderLayerTrace<T>| #[trigger]
            decoder_layer_gives(
                states[i],
                states[i - 1],
                layer,
                encoder_out,
                model.config,
                b,
                kernels,
                t,
            );
    }
}

/// The next token is the one that the last hidden state fits best: no token of the
/// vocabulary has a greater product with the state of the last position, and none
/// behind it has an equal one.
pub proof fn lemma_next_token_fits_best<
    T: Copy + Default + PartialOrd + Add<Output = T> + Mul<Output = T>,
    N: Fn(&[T], &[T], T) -> Vec<T>,
    S: Fn(&[T]) -> Vec<T>,
    F: Fn(usize) -> T,
    G: Fn(T) -> T,
    R: Fn(T) -> T,
    D: Fn(usize, usize, usize, usize) -> usize,
>(
    value: spec_fn(T) -> int,
    model: T5Model<T>,
    ids: Seq<u32>,
    encoder_out: Tensor<T>,
    kernels: T5Kernels<N, S, F, G, R, D>,
    token: u32,
)
    requires
        is_exact(value),
        ordered_by(value),
        model_fits(model),
        0 < ids.len() <= i32::MAX,
        0 < model.config.vocab_size <= u32::MAX,
        model.config.vocab_size <= model.lm_head.dims()[0],
        next_token_gives(model, ids, encoder_out, kernels, token),
    ensures
        exists|hidden: Tensor<T>| #[trigger]
            decoder_states_give(hidden, model, ids, encoder_out, kernels) && token
                < model.config.vocab_size && (forall|o: int|
                0 <= o < model.config.vocab_size ==> #[trigger] weighted(
                    value,
                    hidden,
                    ids.len() - 1,
                    model.lm_head,
                    o,
                ) <= weighted(value, hidden, ids.len() - 1, model.lm_head, token as int))
                && forall|o: int|
                token < o < model.config.vocab_size ==> #[trigger] weighted(
                    value,
                    hidden,
                    ids.len() - 1,
                    model.lm_head,
                    o,
                ) < weighted(value, hidden, ids.len() - 1, model.lm_head, token as int),
{
    let (logits, best) = choose|logits: Tensor<T>, best: usize|
        #![trigger decode_gives(logits, model, ids, encoder_out, kernels), is_token_of(logits, model, ids.len(), best)]
        decode_gives(logits, model, ids, encoder_out, kernels) && is_token_of(
            logits,
            model,
            ids.len(),
            best,
        ) && token == best as u32;
    let row = last_row(logits, model, ids.len());
    lemma_argmax_is_greatest(row, row.len() as int, best as int, value);
    let hidden = lemma_decoder_is_a_chain(value, logits, model, ids, encoder_out, kernels);
    let width = model.lm_head.dims()[0] as int;
    let last = ids.len() - 1;
    lemma_row_bounds(last, ids.len() as int, width);
    assert forall|o: int| 0 <= o < model.config.vocab_size implies #[trigger] weighted(
        value,
        hidden,
        last,
        model.lm_head,
        o,
    ) == value(row[o]) by {
        assert(row[o] == logits.elems()[last * width + o]);
    }
}

/// At most `max_new_tokens` tokens are generated. The end token can only come last,
/// and nothing but the end token makes them fewer.
pub proof fn lemma_generation_ends<
    T: Copy + Default + PartialOrd + Add<Output = T> + Mul<Output = T>,
    N: Fn(&[T], &[T], T) -> Vec<T>,
    S: Fn(&[T]) -> Vec<T>,
    F: Fn(usize) -> T,
    G: Fn(T) -> T,
    R: Fn(T) -> T,
    D: Fn(usize, usize, usize, usize) -> usize,
>(
    out: Seq<u32>,
    model: T5Model<T>,
    encoder_out: Tensor<T>,
    max_new_tokens: nat,
    kernels: T5Kernels<N, S, F, G, R, D>,
)
    requires
        greedy_gives(out, model, encoder_out, max_new_tokens, kernels),
    ensures
        out.len() <= max_new_tokens,
        forall|i: int| 0 <= i < out.len() - 1 ==> #[trigger] out[i] != model.eos_token_id,
        out.len() < max_new_tokens ==> out.len() > 0 && out.last() == model.eos_token_id,
{
    let start = seq![model.decoder_start_token_id];
    let all = start + out;
    lemma_generation(
        |ids: Seq<u32>, token: u32| model.may_pick(ids, &encoder_out, &kernels, token),
        None,
        Some(model.eos_token_id),
        start,
        max_new_tokens,
        all,
    );
    assert forall|i: int| 0 <= i < out.len() - 1 implies #[trigger] out[i]
        != model.eos_token_id by {
        assert(all[i + 1] == out[i]);
    }
}

} // verus!
