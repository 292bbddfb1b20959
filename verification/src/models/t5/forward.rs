//! Running a T5 encoder and decoder.

use vstd::prelude::*;
use vstd::slice::{slice_subrange, slice_to_vec};
use core::ops::{Add, Mul};
use crate::models::forward::{
    check_ids, check_matrix, check_vector, ids_below, is_elementwise_product, is_linear, is_lookup,
    is_mapped, is_matrix, is_sum, is_vector,
};
use crate::models::generate::{
    argmax, argmax_gives, generate, generates, is_greatest, lemma_argmax_in_range,
    lemma_argmax_is_greatest, lemma_each_token_follows, lemma_generation, ordered_by, runs_through,
};
use crate::models::t5::{
    T5Config, T5CrossAttention, T5DecoderLayer, T5EncoderLayer, T5Ffn, T5Model, T5SelfAttention,
    is_relative_bias, lemma_full_table_covers, relative_bias_fits, try_compute_relative_bias,
};
use crate::num::{can_add, can_multiply, can_order, lemma_row_bounds, row_of};
use crate::ops::attention::heads_divide;
use crate::ops::attention::queries::{
    attention_gives, bias_elems, cross_attention_from_qkv, multi_head_attention_with_bias,
    size_of_attention,
};
use crate::ops::embedding::embedding;
use crate::ops::linear::linear;
use crate::ops::matmul::{matmul_t_b, product_t_gives};
use crate::ops::rms_norm::{is_rms_norm, is_row_rms_norm, rms_norm_rows};
use crate::ops::softmax::is_row_softmax;
use crate::tensor::{Tensor, lemma_product_2};

verus! {

/// The arithmetic of the model that the element type does not have.
pub struct T5Kernels<N, S, F, G, R, D> {
    /// RMS normalization of one row: row, scale, epsilon. See
    /// [`rms_norm_row`](crate::ops::rms_norm::rms_norm_row).
    pub norm: N,
    /// Softmax of one row. See [`softmax_row`](crate::ops::softmax::softmax_row).
    pub softmax: S,
    /// What attention scores are scaled by, from the width of a head.
    pub score_factor: F,
    /// Activation of a gated feed-forward block.
    pub gelu: G,
    /// Activation of a plain feed-forward block.
    pub relu: R,
    /// How far above the exact buckets a great distance lies.
    pub step: D,
}

/// The kernels can be called wherever a forward pass calls them.
pub open spec fn kernels_fit<
    T,
    N: Fn(&[T], &[T], T) -> Vec<T>,
    S: Fn(&[T]) -> Vec<T>,
    F: Fn(usize) -> T,
    G: Fn(T) -> T,
    R: Fn(T) -> T,
    D: Fn(usize, usize, usize, usize) -> usize,
>(kernels: T5Kernels<N, S, F, G, R, D>) -> bool {
    &&& is_row_rms_norm(kernels.norm)
    &&& is_row_softmax(kernels.softmax)
    &&& forall|d: usize| #[trigger] call_requires(kernels.score_factor, (d,))
    &&& forall|v: T| #[trigger] call_requires(kernels.gelu, (v,))
    &&& forall|v: T| #[trigger] call_requires(kernels.relu, (v,))
    &&& forall|a: usize, b: usize, c: usize, d: usize|
        #[trigger] call_requires(kernels.step, (a, b, c, d))
}

// ---------------------------------------------------------------------------
// Which weights belong together
// ---------------------------------------------------------------------------

/// Projections from `d` columns to heads and back.
pub open spec fn projections_fit<T>(
    q_w: Tensor<T>,
    k_w: Tensor<T>,
    v_w: Tensor<T>,
    o_w: Tensor<T>,
    d: usize,
    heads: usize,
) -> bool {
    let inner = q_w.dims()[0];
    &&& q_w.dims().len() == 2
    &&& heads_divide(inner, heads)
    &&& is_matrix(q_w, inner, d)
    &&& is_matrix(k_w, inner, d)
    &&& is_matrix(v_w, inner, d)
    &&& is_matrix(o_w, d, inner)
}

/// The weights of a feed-forward block belong together.
pub open spec fn ffn_fits<T>(ffn: T5Ffn<T>, d: usize, gated: bool) -> bool {
    let inner = ffn.wi_w.dims()[0];
    &&& ffn.wi_w.dims().len() == 2
    &&& is_matrix(ffn.wi_w, inner, d)
    &&& gated ==> (ffn.wi_gate_w matches Some(gate) && is_matrix(gate, inner, d))
    &&& is_matrix(ffn.wo_w, d, inner)
}

/// The weights of an encoder block belong together.
pub open spec fn encoder_layer_fits<T>(
    layer: T5EncoderLayer<T>,
    d: usize,
    config: T5Config<T>,
) -> bool {
    let s = layer.self_attn;
    &&& projections_fit(s.q_w, s.k_w, s.v_w, s.o_w, d, config.num_heads)
    &&& is_vector(layer.self_attn_ln, d)
    &&& ffn_fits(layer.ffn, d, config.is_gated_act)
    &&& is_vector(layer.ffn_ln, d)
}

/// The weights of a decoder block belong together.
pub open spec fn decoder_layer_fits<T>(
    layer: T5DecoderLayer<T>,
    d: usize,
    config: T5Config<T>,
) -> bool {
    let s = layer.self_attn;
    let c = layer.cross_attn;
    &&& projections_fit(s.q_w, s.k_w, s.v_w, s.o_w, d, config.num_heads)
    &&& is_vector(layer.self_attn_ln, d)
    &&& projections_fit(c.q_w, c.k_w, c.v_w, c.o_w, d, config.num_heads)
    &&& is_vector(layer.cross_attn_ln, d)
    &&& ffn_fits(layer.ffn, d, config.is_gated_act)
    &&& is_vector(layer.ffn_ln, d)
}

/// No product of a length with a size of the block exceeds `usize::MAX`.
pub open spec fn length_fits_encoder_layer<T>(layer: T5EncoderLayer<T>, n: nat) -> bool {
    n * layer.self_attn.q_w.dims()[0] <= usize::MAX && n * layer.ffn.wi_w.dims()[0] <= usize::MAX
}

/// No product of a length of the decoded sequence, or of the encoded one, with
/// a size of the block exceeds `usize::MAX`, and there is something to decode
/// from.
pub open spec fn length_fits_decoder_layer<T>(layer: T5DecoderLayer<T>, n: nat, m: nat) -> bool {
    &&& n * layer.self_attn.q_w.dims()[0] <= usize::MAX
    &&& n * layer.cross_attn.q_w.dims()[0] <= usize::MAX
    &&& m * layer.cross_attn.q_w.dims()[0] <= usize::MAX
    &&& n * layer.ffn.wi_w.dims()[0] <= usize::MAX
    &&& n > 0 ==> m > 0
}

/// A table of relative position biases serves a sequence of `n` positions.
pub open spec fn bias_fits_length<T, D: Fn(usize, usize, usize, usize) -> usize>(
    table: Option<Tensor<T>>,
    config: T5Config<T>,
    bidirectional: bool,
    step: D,
    n: nat,
) -> bool {
    table matches Some(b) ==> {
        &&& b.dims().last() == config.num_heads
        &&& relative_bias_fits(
            b,
            n as usize,
            n as usize,
            bidirectional,
            config.relative_attention_num_buckets,
            config.relative_attention_max_distance,
            step,
        )
    }
}

/// Whether projections belong together.
fn check_projections<T>(
    q_w: &Tensor<T>,
    k_w: &Tensor<T>,
    v_w: &Tensor<T>,
    o_w: &Tensor<T>,
    d: usize,
    heads: usize,
) -> (res: bool)
    ensures
        res == projections_fit(*q_w, *k_w, *v_w, *o_w, d, heads),
{
    let shape = *q_w.shape();
    let dims = shape.as_slice();
    if dims.len() != 2 || heads == 0 {
        return false;
    }
    let inner: usize = dims[0];
    inner % heads == 0 && check_matrix(q_w, inner, d) && check_matrix(k_w, inner, d)
        && check_matrix(v_w, inner, d) && check_matrix(o_w, d, inner)
}

/// Whether the weights of a feed-forward block belong together.
fn check_ffn<T>(ffn: &T5Ffn<T>, d: usize, gated: bool) -> (res: bool)
    ensures
        res == ffn_fits(*ffn, d, gated),
{
    let shape = *ffn.wi_w.shape();
    let dims = shape.as_slice();
    if dims.len() != 2 {
        return false;
    }
    let inner: usize = dims[0];
    let gate_fits = match &ffn.wi_gate_w {
        Some(gate) => check_matrix(gate, inner, d),
        None => false,
    };
    check_matrix(&ffn.wi_w, inner, d) && (!gated || gate_fits) && check_matrix(&ffn.wo_w, d, inner)
}

/// Whether the weights of an encoder block belong together.
fn check_encoder_layer<T>(layer: &T5EncoderLayer<T>, d: usize, config: &T5Config<T>) -> (res: bool)
    ensures
        res == encoder_layer_fits(*layer, d, *config),
{
    let s = &layer.self_attn;
    check_projections(&s.q_w, &s.k_w, &s.v_w, &s.o_w, d, config.num_heads) && check_vector(
        &layer.self_attn_ln,
        d,
    ) && check_ffn(&layer.ffn, d, config.is_gated_act) && check_vector(&layer.ffn_ln, d)
}

/// Whether the weights of a decoder block belong together.
fn check_decoder_layer<T>(layer: &T5DecoderLayer<T>, d: usize, config: &T5Config<T>) -> (res: bool)
    ensures
        res == decoder_layer_fits(*layer, d, *config),
{
    let s = &layer.self_attn;
    let c = &layer.cross_attn;
    check_projections(&s.q_w, &s.k_w, &s.v_w, &s.o_w, d, config.num_heads) && check_vector(
        &layer.self_attn_ln,
        d,
    ) && check_projections(&c.q_w, &c.k_w, &c.v_w, &c.o_w, d, config.num_heads) && check_vector(
        &layer.cross_attn_ln,
        d,
    ) && check_ffn(&layer.ffn, d, config.is_gated_act) && check_vector(&layer.ffn_ln, d)
}

// ---------------------------------------------------------------------------
// Blocks
// ---------------------------------------------------------------------------

/// What a feed-forward block computes on the way.
pub struct FfnTrace<T> {
    pub inner: Tensor<T>,
    pub active: Tensor<T>,
    pub gate: Tensor<T>,
    pub gated: Tensor<T>,
}

/// A feed-forward block may make `out` of `x`, by way of `t`. A gated block
/// multiplies its activated projection with a second one.
pub open spec fn ffn_gives<
    T: Default + Add<Output = T> + Mul<Output = T>,
    N: Fn(&[T], &[T], T) -> Vec<T>,
    S: Fn(&[T]) -> Vec<T>,
    F: Fn(usize) -> T,
    G: Fn(T) -> T,
    R: Fn(T) -> T,
    D: Fn(usize, usize, usize, usize) -> usize,
>(
    out: Tensor<T>,
    x: Tensor<T>,
    ffn: T5Ffn<T>,
    gated: bool,
    kernels: T5Kernels<N, S, F, G, R, D>,
    t: FfnTrace<T>,
) -> bool {
    &&& is_linear(t.inner, x, ffn.wi_w, None)
    &&& if gated {
        &&& is_mapped(t.active, t.inner, kernels.gelu)
        &&& ffn.wi_gate_w matches Some(gate) && is_linear(t.gate, x, gate, None)
        &&& is_elementwise_product(t.gated, t.active, t.gate)
        &&& is_linear(out, t.gated, ffn.wo_w, None)
    } else {
        &&& is_mapped(t.active, t.inner, kernels.relu)
        &&& is_linear(out, t.active, ffn.wo_w, None)
    }
}

/// Runs a feed-forward block.
fn ffn_forward<
    T: Copy + Default + Add<Output = T> + Mul<Output = T>,
    N: Fn(&[T], &[T], T) -> Vec<T>,
    S: Fn(&[T]) -> Vec<T>,
    F: Fn(usize) -> T,
    G: Fn(T) -> T,
    R: Fn(T) -> T,
    D: Fn(usize, usize, usize, usize) -> usize,
>(
    x: &Tensor<T>,
    ffn: &T5Ffn<T>,
    gated: bool,
    kernels: &T5Kernels<N, S, F, G, R, D>,
) -> (res: (Tensor<T>, Ghost<FfnTrace<T>>))
    requires
        x.wf(),
        x.dims().len() == 2,
        ffn_fits(*ffn, x.dims()[1], gated),
        x.dims()[0] * ffn.wi_w.dims()[0] <= usize::MAX,
        can_add::<T>(),
        can_multiply::<T>(),
        kernels_fit(*kernels),
    ensures
        res.0.wf(),
        res.0.dims() == x.dims(),
        ffn_gives(res.0, *x, *ffn, gated, *kernels, res.1@),
{
    proof {
        lemma_product_2(x.dims());
    }
    let inner = linear(x, &ffn.wi_w, None);
    if gated {
        let active = crate::ops::elementwise::map(&inner, &kernels.gelu);
        match &ffn.wi_gate_w {
            Some(gate_w) => {
                let gate = linear(x, gate_w, None);
                let gated = crate::ops::elementwise::mul(&active, &gate);
                let out = linear(&gated, &ffn.wo_w, None);
                assert(out.dims() =~= x.dims());
                (out, Ghost(FfnTrace { inner, active, gate, gated }))
            },
            None => {
                assert(false);
                (inner, Ghost(arbitrary()))
            },
        }
    } else {
        let active = crate::ops::elementwise::map(&inner, &kernels.relu);
        let out = linear(&active, &ffn.wo_w, None);
        assert(out.dims() =~= x.dims());
        (out, Ghost(FfnTrace { inner, active, gate: inner, gated: inner }))
    }
}

/// What an attention sublayer computes on the way.
pub struct AttentionTrace<T> {
    pub normed: Tensor<T>,
    pub q: Tensor<T>,
    pub k: Tensor<T>,
    pub v: Tensor<T>,
    pub factor: T,
    pub heads: Tensor<T>,
    pub proj: Tensor<T>,
}

/// The heads may make of queries, keys and values what the trace says.
pub open spec fn heads_give<
    T: Default + Add<Output = T> + Mul<Output = T>,
    S: Fn(&[T]) -> Vec<T>,
    F: Fn(usize) -> T,
>(
    t: AttentionTrace<T>,
    num_heads: usize,
    bias: Option<&Tensor<T>>,
    causal: bool,
    softmax: S,
    score_factor: F,
) -> bool {
    &&& call_ensures(score_factor, ((t.q.dims()[1] / num_heads),), t.factor)
    &&& t.heads.wf()
    &&& t.heads.dims() == t.q.dims()
    &&& attention_gives(
        t.heads.elems(),
        t.q.elems(),
        t.k.elems(),
        t.v.elems(),
        size_of_attention(t.q, t.k, num_heads),
        bias_elems(bias),
        causal,
        t.factor,
        softmax,
    )
}

/// A self-attention sublayer may make `out` of `x`, by way of `t`:
/// normalization, attention and residual.
pub open spec fn self_attention_gives<
    T: Default + Add<Output = T> + Mul<Output = T>,
    N: Fn(&[T], &[T], T) -> Vec<T>,
    S: Fn(&[T]) -> Vec<T>,
    F: Fn(usize) -> T,
    G: Fn(T) -> T,
    R: Fn(T) -> T,
    D: Fn(usize, usize, usize, usize) -> usize,
>(
    out: Tensor<T>,
    x: Tensor<T>,
    attn: T5SelfAttention<T>,
    ln: Tensor<T>,
    config: T5Config<T>,
    bias: Option<&Tensor<T>>,
    causal: bool,
    kernels: T5Kernels<N, S, F, G, R, D>,
    t: AttentionTrace<T>,
) -> bool {
    &&& is_rms_norm(t.normed, x, ln, config.layer_norm_eps, kernels.norm)
    &&& is_linear(t.q, t.normed, attn.q_w, None)
    &&& is_linear(t.k, t.normed, attn.k_w, None)
    &&& is_linear(t.v, t.normed, attn.v_w, None)
    &&& heads_give(t, config.num_heads, bias, causal, kernels.softmax, kernels.score_factor)
    &&& is_linear(t.proj, t.heads, attn.o_w, None)
    &&& is_sum(out, x, t.proj)
}

/// Runs a self-attention sublayer.
fn self_attention_forward<
    T: Copy + Default + Add<Output = T> + Mul<Output = T>,
    N: Fn(&[T], &[T], T) -> Vec<T>,
    S: Fn(&[T]) -> Vec<T>,
    F: Fn(usize) -> T,
    G: Fn(T) -> T,
    R: Fn(T) -> T,
    D: Fn(usize, usize, usize, usize) -> usize,
>(
    x: &Tensor<T>,
    attn: &T5SelfAttention<T>,
    ln: &Tensor<T>,
    config: &T5Config<T>,
    bias: Option<&Tensor<T>>,
    causal: bool,
    kernels: &T5Kernels<N, S, F, G, R, D>,
) -> (res: (Tensor<T>, Ghost<AttentionTrace<T>>))
    requires
        x.wf(),
        x.dims().len() == 2,
        x.dims()[1] > 0,
        projections_fit(attn.q_w, attn.k_w, attn.v_w, attn.o_w, x.dims()[1], config.num_heads),
        is_vector(*ln, x.dims()[1]),
        bias matches Some(b) ==> b.wf() && b.dims() == seq![
            config.num_heads,
            x.dims()[0],
            x.dims()[0],
        ],
        x.dims()[0] * attn.q_w.dims()[0] <= usize::MAX,
        can_add::<T>(),
        can_multiply::<T>(),
        kernels_fit(*kernels),
    ensures
        res.0.wf(),
        res.0.dims() == x.dims(),
        self_attention_gives(res.0, *x, *attn, *ln, *config, bias, causal, *kernels, res.1@),
{
    proof {
        lemma_product_2(x.dims());
    }
    let normed = rms_norm_rows(x, ln, config.layer_norm_eps, &kernels.norm);
    let q = linear(&normed, &attn.q_w, None);
    let k = linear(&normed, &attn.k_w, None);
    let v = linear(&normed, &attn.v_w, None);
    assert(k.dims() =~= q.dims());
    assert(v.dims() =~= q.dims());
    let q_shape = *q.shape();
    let score_factor = &kernels.score_factor;
    let factor = score_factor(q_shape.as_slice()[1] / config.num_heads);
    let heads = multi_head_attention_with_bias(
        &q,
        &k,
        &v,
        config.num_heads,
        bias,
        causal,
        factor,
        &kernels.softmax,
    );
    let proj = linear(&heads, &attn.o_w, None);
    assert(proj.dims() =~= x.dims());
    let out = crate::ops::elementwise::add(x, &proj);
    (out, Ghost(AttentionTrace { normed, q, k, v, factor, heads, proj }))
}

/// A cross-attention sublayer may make `out` of `x` and the encoder's output, by
/// way of `t`: queries from the decoder, keys and values from the encoder.
pub open spec fn cross_attention_gives<
    T: Default + Add<Output = T> + Mul<Output = T>,
    N: Fn(&[T], &[T], T) -> Vec<T>,
    S: Fn(&[T]) -> Vec<T>,
    F: Fn(usize) -> T,
    G: Fn(T) -> T,
    R: Fn(T) -> T,
    D: Fn(usize, usize, usize, usize) -> usize,
>(
    out: Tensor<T>,
    x: Tensor<T>,
    attn: T5CrossAttention<T>,
    ln: Tensor<T>,
    encoder_out: Tensor<T>,
    config: T5Config<T>,
    kernels: T5Kernels<N, S, F, G, R, D>,
    t: AttentionTrace<T>,
) -> bool {
    &&& is_rms_norm(t.normed, x, ln, config.layer_norm_eps, kernels.norm)
    &&& is_linear(t.q, t.normed, attn.q_w, None)
    &&& is_linear(t.k, encoder_out, attn.k_w, None)
    &&& is_linear(t.v, encoder_out, attn.v_w, None)
    &&& heads_give(t, config.num_heads, None, false, kernels.softmax, kernels.score_factor)
    &&& is_linear(t.proj, t.heads, attn.o_w, None)
    &&& is_sum(out, x, t.proj)
}

/// Runs a cross-attention sublayer.
fn cross_attention_forward<
    T: Copy + Default + Add<Output = T> + Mul<Output = T>,
    N: Fn(&[T], &[T], T) -> Vec<T>,
    S: Fn(&[T]) -> Vec<T>,
    F: Fn(usize) -> T,
    G: Fn(T) -> T,
    R: Fn(T) -> T,
    D: Fn(usize, usize, usize, usize) -> usize,
>(
    x: &Tensor<T>,
    attn: &T5CrossAttention<T>,
    ln: &Tensor<T>,
    encoder_out: &Tensor<T>,
    config: &T5Config<T>,
    kernels: &T5Kernels<N, S, F, G, R, D>,
) -> (res: (Tensor<T>, Ghost<AttentionTrace<T>>))
    requires
        x.wf(),
        x.dims().len() == 2,
        x.dims()[1] > 0,
        encoder_out.wf(),
        encoder_out.dims().len() == 2,
        encoder_out.dims()[1] == x.dims()[1],
        projections_fit(attn.q_w, attn.k_w, attn.v_w, attn.o_w, x.dims()[1], config.num_heads),
        is_vector(*ln, x.dims()[1]),
        x.dims()[0] * attn.q_w.dims()[0] <= usize::MAX,
        encoder_out.dims()[0] * attn.q_w.dims()[0] <= usize::MAX,
        x.dims()[0] > 0 ==> encoder_out.dims()[0] > 0,
        can_add::<T>(),
        can_multiply::<T>(),
        kernels_fit(*kernels),
    ensures
        res.0.wf(),
        res.0.dims() == x.dims(),
        cross_attention_gives(res.0, *x, *attn, *ln, *encoder_out, *config, *kernels, res.1@),
{
    proof {
        lemma_product_2(x.dims());
    }
    let normed = rms_norm_rows(x, ln, config.layer_norm_eps, &kernels.norm);
    let q = linear(&normed, &attn.q_w, None);
    let k = linear(encoder_out, &attn.k_w, None);
    let v = linear(encoder_out, &attn.v_w, None);
    assert(v.dims() =~= k.dims());
    let q_shape = *q.shape();
    let score_factor = &kernels.score_factor;
    let factor = score_factor(q_shape.as_slice()[1] / config.num_heads);
    let heads = cross_attention_from_qkv(
        &q,
        &k,
        &v,
        config.num_heads,
        factor,
        &kernels.softmax,
    );
    let proj = linear(&heads, &attn.o_w, None);
    assert(proj.dims() =~= x.dims());
    let out = crate::ops::elementwise::add(x, &proj);
    (out, Ghost(AttentionTrace { normed, q, k, v, factor, heads, proj }))
}

/// What an encoder block computes on the way.
pub struct EncoderLayerTrace<T> {
    pub attn: AttentionTrace<T>,
    pub middle: Tensor<T>,
    pub normed: Tensor<T>,
    pub ffn: FfnTrace<T>,
    pub ffn_out: Tensor<T>,
}

/// An encoder block may make `out` of `x`, by way of `t`.
pub open spec fn encoder_layer_gives<
    T: Default + Add<Output = T> + Mul<Output = T>,
    N: Fn(&[T], &[T], T) -> Vec<T>,
    S: Fn(&[T]) -> Vec<T>,
    F: Fn(usize) -> T,
    G: Fn(T) -> T,
    R: Fn(T) -> T,
    D: Fn(usize, usize, usize, usize) -> usize,
>(
    out: Tensor<T>,
    x: Tensor<T>,
    layer: T5EncoderLayer<T>,
    config: T5Config<T>,
    bias: Option<&Tensor<T>>,
    kernels: T5Kernels<N, S, F, G, R, D>,
    t: EncoderLayerTrace<T>,
) -> bool {
    &&& self_attention_gives(
        t.middle,
        x,
        layer.self_attn,
        layer.self_attn_ln,
        config,
        bias,
        false,
        kernels,
        t.attn,
    )
    &&& is_rms_norm(t.normed, t.middle, layer.ffn_ln, config.layer_norm_eps, kernels.norm)
    &&& ffn_gives(t.ffn_out, t.normed, layer.ffn, config.is_gated_act, kernels, t.ffn)
    &&& is_sum(out, t.middle, t.ffn_out)
}

/// An encoder block may make `out` of `x`.
pub open spec fn encoder_layer_may_give<
    T: Default + Add<Output = T> + Mul<Output = T>,
    N: Fn(&[T], &[T], T) -> Vec<T>,
    S: Fn(&[T]) -> Vec<T>,
    F: Fn(usize) -> T,
    G: Fn(T) -> T,
    R: Fn(T) -> T,
    D: Fn(usize, usize, usize, usize) -> usize,
>(
    out: Tensor<T>,
    x: Tensor<T>,
    layer: T5EncoderLayer<T>,
    config: T5Config<T>,
    bias: Option<&Tensor<T>>,
    kernels: T5Kernels<N, S, F, G, R, D>,
) -> bool {
    exists|t: EncoderLayerTrace<T>| #[trigger]
        encoder_layer_gives(out, x, layer, config, bias, kernels, t)
}

/// Runs an encoder block.
fn encoder_layer_forward<
    T: Copy + Default + Add<Output = T> + Mul<Output = T>,
    N: Fn(&[T], &[T], T) -> Vec<T>,
    S: Fn(&[T]) -> Vec<T>,
    F: Fn(usize) -> T,
    G: Fn(T) -> T,
    R: Fn(T) -> T,
    D: Fn(usize, usize, usize, usize) -> usize,
>(
    x: &Tensor<T>,
    layer: &T5EncoderLayer<T>,
    config: &T5Config<T>,
    bias: Option<&Tensor<T>>,
    kernels: &T5Kernels<N, S, F, G, R, D>,
) -> (res: Tensor<T>)
    requires
        x.wf(),
        x.dims().len() == 2,
        x.dims()[1] > 0,
        encoder_layer_fits(*layer, x.dims()[1], *config),
        length_fits_encoder_layer(*layer, x.dims()[0] as nat),
        bias matches Some(b) ==> b.wf() && b.dims() == seq![
            config.num_heads,
            x.dims()[0],
            x.dims()[0],
        ],
        can_add::<T>(),
        can_multiply::<T>(),
        kernels_fit(*kernels),
    ensures
        res.wf(),
        res.dims() == x.dims(),
        encoder_layer_may_give(res, *x, *layer, *config, bias, *kernels),
{
    let (middle, Ghost(attn)) = self_attention_forward(
        x,
        &layer.self_attn,
        &layer.self_attn_ln,
        config,
        bias,
        false,
        kernels,
    );
    let normed = rms_norm_rows(&middle, &layer.ffn_ln, config.layer_norm_eps, &kernels.norm);
    let (ffn_out, Ghost(ffn)) = ffn_forward(&normed, &layer.ffn, config.is_gated_act, kernels);
    let res = crate::ops::elementwise::add(&middle, &ffn_out);
    let ghost t = EncoderLayerTrace { attn, middle, normed, ffn, ffn_out };
    assert(encoder_layer_gives(res, *x, *layer, *config, bias, *kernels, t));
    res
}

/// What a decoder block computes on the way.
pub struct DecoderLayerTrace<T> {
    pub attn: AttentionTrace<T>,
    pub after_self: Tensor<T>,
    pub cross: AttentionTrace<T>,
    pub after_cross: Tensor<T>,
    pub normed: Tensor<T>,
    pub ffn: FfnTrace<T>,
    pub ffn_out: Tensor<T>,
}

/// A decoder block may make `out` of `x` and the encoder's output, by way of
/// `t`.
pub open spec fn decoder_layer_gives<
    T: Default + Add<Output = T> + Mul<Output = T>,
    N: Fn(&[T], &[T], T) -> Vec<T>,
    S: Fn(&[T]) -> Vec<T>,
    F: Fn(usize) -> T,
    G: Fn(T) -> T,
    R: Fn(T) -> T,
    D: Fn(usize, usize, usize, usize) -> usize,
>(
    out: Tensor<T>,
    x: Tensor<T>,
    layer: T5DecoderLayer<T>,
    encoder_out: Tensor<T>,
    config: T5Config<T>,
    bias: Option<&Tensor<T>>,
    kernels: T5Kernels<N, S, F, G, R, D>,
    t: DecoderLayerTrace<T>,
) -> bool {
    &&& self_attention_gives(
        t.after_self,
        x,
        layer.self_attn,
        layer.self_attn_ln,
        config,
        bias,
        true,
        kernels,
        t.attn,
    )
    &&& cross_attention_gives(
        t.after_cross,
        t.after_self,
        layer.cross_attn,
        layer.cross_attn_ln,
        encoder_out,
        config,
        kernels,
        t.cross,
    )
    &&& is_rms_norm(t.normed, t.after_cross, layer.ffn_ln, config.layer_norm_eps, kernels.norm)
    &&& ffn_gives(t.ffn_out, t.normed, layer.ffn, config.is_gated_act, kernels, t.ffn)
    &&& is_sum(out, t.after_cross, t.ffn_out)
}

/// A decoder block may make `out` of `x` and the encoder's output.
pub open spec fn decoder_layer_may_give<
    T: Default + Add<Output = T> + Mul<Output = T>,
    N: Fn(&[T], &[T], T) -> Vec<T>,
    S: Fn(&[T]) -> Vec<T>,
    F: Fn(usize) -> T,
    G: Fn(T) -> T,
    R: Fn(T) -> T,
    D: Fn(usize, usize, usize, usize) -> usize,
>(
    out: Tensor<T>,
    x: Tensor<T>,
    layer: T5DecoderLayer<T>,
    encoder_out: Tensor<T>,
    config: T5Config<T>,
    bias: Option<&Tensor<T>>,
    kernels: T5Kernels<N, S, F, G, R, D>,
) -> bool {
    exists|t: DecoderLayerTrace<T>| #[trigger]
        decoder_layer_gives(out, x, layer, encoder_out, config, bias, kernels, t)
}

/// Runs a decoder block.
fn decoder_layer_forward<
    T: Copy + Default + Add<Output = T> + Mul<Output = T>,
    N: Fn(&[T], &[T], T) -> Vec<T>,
    S: Fn(&[T]) -> Vec<T>,
    F: Fn(usize) -> T,
    G: Fn(T) -> T,
    R: Fn(T) -> T,
    D: Fn(usize, usize, usize, usize) -> usize,
>(
    x: &Tensor<T>,
    layer: &T5DecoderLayer<T>,
    encoder_out: &Tensor<T>,
    config: &T5Config<T>,
    bias: Option<&Tensor<T>>,
    kernels: &T5Kernels<N, S, F, G, R, D>,
) -> (res: Tensor<T>)
    requires
        x.wf(),
        x.dims().len() == 2,
        x.dims()[1] > 0,
        encoder_out.wf(),
        encoder_out.dims().len() == 2,
        encoder_out.dims()[1] == x.dims()[1],
        decoder_layer_fits(*layer, x.dims()[1], *config),
        length_fits_decoder_layer(*layer, x.dims()[0] as nat, encoder_out.dims()[0] as nat),
        bias matches Some(b) ==> b.wf() && b.dims() == seq![
            config.num_heads,
            x.dims()[0],
            x.dims()[0],
        ],
        can_add::<T>(),
        can_multiply::<T>(),
        kernels_fit(*kernels),
    ensures
        res.wf(),
        res.dims() == x.dims(),
        decoder_layer_may_give(res, *x, *layer, *encoder_out, *config, bias, *kernels),
{
    let (after_self, Ghost(attn)) = self_attention_forward(
        x,
        &layer.self_attn,
        &layer.self_attn_ln,
        config,
        bias,
        true,
        kernels,
    );
    let (after_cross, Ghost(cross)) = cross_attention_forward(
        &after_self,
        &layer.cross_attn,
        &layer.cross_attn_ln,
        encoder_out,
        config,
        kernels,
    );
    let normed = rms_norm_rows(&after_cross, &layer.ffn_ln, config.layer_norm_eps, &kernels.norm);
    let (ffn_out, Ghost(ffn)) = ffn_forward(&normed, &layer.ffn, config.is_gated_act, kernels);
    let res = crate::ops::elementwise::add(&after_cross, &ffn_out);
    let ghost t = DecoderLayerTrace {
        attn,
        after_self,
        cross,
        after_cross,
        normed,
        ffn,
        ffn_out,
    };
    assert(decoder_layer_gives(res, *x, *layer, *encoder_out, *config, bias, *kernels, t));
    res
}

// ---------------------------------------------------------------------------
// Encoder and decoder
// ---------------------------------------------------------------------------

/// The weights of the model belong together.
pub open spec fn model_fits<T>(model: T5Model<T>) -> bool {
    let d = model.shared_emb.dims()[1];
    &&& model.shared_emb.wf()
    &&& model.shared_emb.dims().len() == 2
    &&& d > 0
    &&& forall|i: int|
        0 <= i < model.encoder_layers@.len() ==> encoder_layer_fits(
            #[trigger] model.encoder_layers@[i],
            d,
            model.config,
        )
    &&& is_vector(model.encoder_final_ln, d)
    &&& forall|i: int|
        0 <= i < model.decoder_layers@.len() ==> decoder_layer_fits(
            #[trigger] model.decoder_layers@[i],
            d,
            model.config,
        )
    &&& is_vector(model.decoder_final_ln, d)
    &&& model.lm_head.dims().len() == 2
    &&& is_matrix(model.lm_head, model.lm_head.dims()[0], d)
}

/// The table of relative position biases of the encoder: that of its first
/// block.
pub open spec fn encoder_table<T>(model: T5Model<T>) -> Option<Tensor<T>> {
    if model.encoder_layers@.len() > 0 {
        model.encoder_layers@[0].self_attn.rel_bias
    } else {
        None
    }
}

/// The table of relative position biases of the decoder: that of its first
/// block.
pub open spec fn decoder_table<T>(model: T5Model<T>) -> Option<Tensor<T>> {
    if model.decoder_layers@.len() > 0 {
        model.decoder_layers@[0].self_attn.rel_bias
    } else {
        None
    }
}

/// No product of `n` with a size of the encoder exceeds `usize::MAX`.
pub open spec fn encoder_sizes_fit<T>(model: T5Model<T>, n: nat) -> bool {
    &&& n * model.shared_emb.dims()[1] <= usize::MAX
    &&& forall|i: int|
        0 <= i < model.encoder_layers@.len() ==> length_fits_encoder_layer(
            #[trigger] model.encoder_layers@[i],
            n,
        )
}

/// No product of `n` or `m` with a size of the decoder exceeds `usize::MAX`, and
/// there is something to decode from.
pub open spec fn decoder_sizes_fit<T>(model: T5Model<T>, n: nat, m: nat) -> bool {
    &&& n * model.shared_emb.dims()[1] <= usize::MAX
    &&& n * model.lm_head.dims()[0] <= usize::MAX
    &&& forall|i: int|
        0 <= i < model.decoder_layers@.len() ==> length_fits_decoder_layer(
            #[trigger] model.decoder_layers@[i],
            n,
            m,
        )
}

/// The encoder can run on these ids: they have embeddings, and the encoder can
/// run on that length.
pub open spec fn encoder_accepts<T, D: Fn(usize, usize, usize, usize) -> usize>(
    model: T5Model<T>,
    input_ids: Seq<u32>,
    step: D,
) -> bool {
    &&& ids_below(input_ids, model.shared_emb.dims()[0])
    &&& encoder_sizes_fit(model, input_ids.len())
    &&& bias_fits_length(encoder_table(model), model.config, true, step, input_ids.len())
}

/// The decoder can run on these ids: they have embeddings, the encoder's output
/// has the width of the model, and the decoder can run on that length.
pub open spec fn decoder_accepts<T, D: Fn(usize, usize, usize, usize) -> usize>(
    model: T5Model<T>,
    decoder_ids: Seq<u32>,
    encoder_out: Tensor<T>,
    step: D,
) -> bool {
    &&& ids_below(decoder_ids, model.shared_emb.dims()[0])
    &&& encoder_out.dims().len() == 2
    &&& is_matrix(encoder_out, encoder_out.dims()[0], model.shared_emb.dims()[1])
    &&& decoder_sizes_fit(model, decoder_ids.len(), encoder_out.dims()[0] as nat)
    &&& bias_fits_length(decoder_table(model), model.config, false, step, decoder_ids.len())
}

/// The position bias is the one that the table gives, if there is a table.
pub open spec fn position_bias_gives<T, D: Fn(usize, usize, usize, usize) -> usize>(
    bias: Option<Tensor<T>>,
    table: Option<Tensor<T>>,
    n: nat,
    bidirectional: bool,
    config: T5Config<T>,
    step: D,
) -> bool {
    match table {
        None => bias is None,
        Some(b) => bias matches Some(out) && is_relative_bias(
            out,
            b,
            n as usize,
            n as usize,
            bidirectional,
            config.relative_attention_num_buckets,
            config.relative_attention_max_distance,
            step,
        ),
    }
}

/// Only the first block gets the position bias.
pub open spec fn bias_for_layer<T>(bias: &Option<Tensor<T>>, i: int) -> Option<&Tensor<T>> {
    if i == 0 {
        match bias {
            Some(b) => Some(b),
            None => None,
        }
    } else {
        None
    }
}

/// Each encoder block may make the next of the hidden states out of the one
/// before.
pub open spec fn encoder_layers_give<
    T: Default + Add<Output = T> + Mul<Output = T>,
    N: Fn(&[T], &[T], T) -> Vec<T>,
    S: Fn(&[T]) -> Vec<T>,
    F: Fn(usize) -> T,
    G: Fn(T) -> T,
    R: Fn(T) -> T,
    D: Fn(usize, usize, usize, usize) -> usize,
>(
    states: Seq<Tensor<T>>,
    model: T5Model<T>,
    bias: Option<Tensor<T>>,
    kernels: T5Kernels<N, S, F, G, R, D>,
) -> bool {
    forall|i: int|
        0 <= i < states.len() - 1 ==> encoder_layer_may_give(
            states[i + 1],
            states[i],
            #[trigger] model.encoder_layers@[i],
            model.config,
            bias_for_layer(&bias, i),
            kernels,
        )
}

/// The encoder may give `out`: the last of the hidden states that start with
/// the embeddings and go through every block, normalized.
pub open spec fn encode_gives<
    T: Default + Add<Output = T> + Mul<Output = T>,
    N: Fn(&[T], &[T], T) -> Vec<T>,
    S: Fn(&[T]) -> Vec<T>,
    F: Fn(usize) -> T,
    G: Fn(T) -> T,
    R: Fn(T) -> T,
    D: Fn(usize, usize, usize, usize) -> usize,
>(
    out: Tensor<T>,
    model: T5Model<T>,
    input_ids: Seq<u32>,
    kernels: T5Kernels<N, S, F, G, R, D>,
) -> bool {
    exists|states: Seq<Tensor<T>>, bias: Option<Tensor<T>>|
        #[trigger] encoder_layers_give(states, model, bias, kernels) && states.len()
            == model.encoder_layers@.len() + 1 && is_lookup(
            states[0],
            input_ids,
            model.shared_emb,
        ) && position_bias_gives(
            bias,
            encoder_table(model),
            input_ids.len(),
            true,
            model.config,
            kernels.step,
        ) && is_rms_norm(
            out,
            states.last(),
            model.encoder_final_ln,
            model.config.layer_norm_eps,
            kernels.norm,
        )
}

/// Each decoder block may make the next of the hidden states out of the one
/// before.
pub open spec fn decoder_layers_give<
    T: Default + Add<Output = T> + Mul<Output = T>,
    N: Fn(&[T], &[T], T) -> Vec<T>,
    S: Fn(&[T]) -> Vec<T>,
    F: Fn(usize) -> T,
    G: Fn(T) -> T,
    R: Fn(T) -> T,
    D: Fn(usize, usize, usize, usize) -> usize,
>(
    states: Seq<Tensor<T>>,
    model: T5Model<T>,
    encoder_out: Tensor<T>,
    bias: Option<Tensor<T>>,
    kernels: T5Kernels<N, S, F, G, R, D>,
) -> bool {
    forall|i: int|
        0 <= i < states.len() - 1 ==> decoder_layer_may_give(
            states[i + 1],
            states[i],
            #[trigger] model.decoder_layers@[i],
            encoder_out,
            model.config,
            bias_for_layer(&bias, i),
            kernels,
        )
}

/// The hidden states of the decoder may come out as `out`.
pub open spec fn decoder_states_give<
    T: Default + Add<Output = T> + Mul<Output = T>,
    N: Fn(&[T], &[T], T) -> Vec<T>,
    S: Fn(&[T]) -> Vec<T>,
    F: Fn(usize) -> T,
    G: Fn(T) -> T,
    R: Fn(T) -> T,
    D: Fn(usize, usize, usize, usize) -> usize,
>(
    out: Tensor<T>,
    model: T5Model<T>,
    decoder_ids: Seq<u32>,
    encoder_out: Tensor<T>,
    kernels: T5Kernels<N, S, F, G, R, D>,
) -> bool {
    exists|states: Seq<Tensor<T>>, bias: Option<Tensor<T>>|
        #[trigger] decoder_layers_give(states, model, encoder_out, bias, kernels) && states.len()
            == model.decoder_layers@.len() + 1 && is_lookup(
            states[0],
            decoder_ids,
            model.shared_emb,
        ) && position_bias_gives(
            bias,
            decoder_table(model),
            decoder_ids.len(),
            false,
            model.config,
            kernels.step,
        ) && is_rms_norm(
            out,
            states.last(),
            model.decoder_final_ln,
            model.config.layer_norm_eps,
            kernels.norm,
        )
}

/// The logits of every decoded position may be `out`.
pub open spec fn decode_gives<
    T: Default + Add<Output = T> + Mul<Output = T>,
    N: Fn(&[T], &[T], T) -> Vec<T>,
    S: Fn(&[T]) -> Vec<T>,
    F: Fn(usize) -> T,
    G: Fn(T) -> T,
    R: Fn(T) -> T,
    D: Fn(usize, usize, usize, usize) -> usize,
>(
    out: Tensor<T>,
    model: T5Model<T>,
    decoder_ids: Seq<u32>,
    encoder_out: Tensor<T>,
    kernels: T5Kernels<N, S, F, G, R, D>,
) -> bool {
    exists|hidden: Tensor<T>|
        #[trigger] decoder_states_give(hidden, model, decoder_ids, encoder_out, kernels)
            && product_t_gives(
            hidden.elems(),
            model.lm_head.elems(),
            decoder_ids.len() as int,
            model.shared_emb.dims()[1] as int,
            model.lm_head.dims()[0] as int,
            out.elems(),
        )
}

/// The token with the greatest logit behind the decoded ones may be `token`.
pub open spec fn next_token_gives<
    T: Default + PartialOrd + Add<Output = T> + Mul<Output = T>,
    N: Fn(&[T], &[T], T) -> Vec<T>,
    S: Fn(&[T]) -> Vec<T>,
    F: Fn(usize) -> T,
    G: Fn(T) -> T,
    R: Fn(T) -> T,
    D: Fn(usize, usize, usize, usize) -> usize,
>(
    model: T5Model<T>,
    decoder_ids: Seq<u32>,
    encoder_out: Tensor<T>,
    kernels: T5Kernels<N, S, F, G, R, D>,
    token: u32,
) -> bool {
    exists|logits: Tensor<T>, best: usize|
        #![trigger decode_gives(logits, model, decoder_ids, encoder_out, kernels), is_token_of(logits, model, decoder_ids.len(), best)]
        decode_gives(logits, model, decoder_ids, encoder_out, kernels) && is_token_of(
            logits,
            model,
            decoder_ids.len(),
            best,
        ) && token == best as u32
}

/// The logits of the last of `n` positions: one for each token of the vocabulary.
pub open spec fn last_row<T>(logits: Tensor<T>, model: T5Model<T>, n: nat) -> Seq<T> {
    row_of(logits.elems(), model.lm_head.dims()[0] as int, n - 1).take(
        model.config.vocab_size as int,
    )
}

/// The search for the greatest logit of the last of `n` positions may give
/// `best`.
pub open spec fn is_token_of<T: PartialOrd>(
    logits: Tensor<T>,
    model: T5Model<T>,
    n: nat,
    best: usize,
) -> bool {
    let row = last_row(logits, model, n);
    row.len() == model.config.vocab_size && argmax_gives(row, row.len() as int, best as int)
}

impl<T> T5Model<T> {
    /// Whether the weights of the model belong together.
    pub fn is_consistent(&self) -> (res: bool)
        ensures
            res == model_fits(*self),
    {
        let emb_shape = *self.shared_emb.shape();
        let emb_dims = emb_shape.as_slice();
        let head_shape = *self.lm_head.shape();
        let head_dims = head_shape.as_slice();
        if !self.shared_emb.is_consistent() || emb_dims.len() != 2 || head_dims.len() != 2 {
            return false;
        }
        let d: usize = emb_dims[1];
        if d == 0 || !check_vector(&self.encoder_final_ln, d) || !check_vector(
            &self.decoder_final_ln,
            d,
        ) || !check_matrix(&self.lm_head, head_dims[0], d) {
            return false;
        }
        let n: usize = self.encoder_layers.len();
        let mut i: usize = 0;
        while i < n
            invariant
                i <= n,
                n == self.encoder_layers@.len(),
                d == self.shared_emb.dims()[1],
                forall|k: int|
                    0 <= k < i ==> encoder_layer_fits(
                        #[trigger] self.encoder_layers@[k],
                        d,
                        self.config,
                    ),
            decreases n - i,
        {
            if !check_encoder_layer(&self.encoder_layers[i], d, &self.config) {
                assert(!encoder_layer_fits(self.encoder_layers@[i as int], d, self.config));
                return false;
            }
            i = i + 1;
        }
        let m: usize = self.decoder_layers.len();
        let mut j: usize = 0;
        while j < m
            invariant
                j <= m,
                m == self.decoder_layers@.len(),
                d == self.shared_emb.dims()[1],
                forall|k: int|
                    0 <= k < j ==> decoder_layer_fits(
                        #[trigger] self.decoder_layers@[k],
                        d,
                        self.config,
                    ),
            decreases m - j,
        {
            if !check_decoder_layer(&self.decoder_layers[j], d, &self.config) {
                assert(!decoder_layer_fits(self.decoder_layers@[j as int], d, self.config));
                return false;
            }
            j = j + 1;
        }
        true
    }

    /// Whether no product of `n` with a size of the encoder exceeds `usize::MAX`.
    fn encoder_takes_length(&self, n: usize) -> (res: bool)
        requires
            model_fits(*self),
        ensures
            res == encoder_sizes_fit(*self, n as nat),
    {
        let emb_shape = *self.shared_emb.shape();
        if n.checked_mul(emb_shape.as_slice()[1]).is_none() {
            return false;
        }
        let count: usize = self.encoder_layers.len();
        let mut i: usize = 0;
        while i < count
            invariant
                i <= count,
                count == self.encoder_layers@.len(),
                model_fits(*self),
                forall|k: int|
                    0 <= k < i ==> length_fits_encoder_layer(
                        #[trigger] self.encoder_layers@[k],
                        n as nat,
                    ),
            decreases count - i,
        {
            let layer = &self.encoder_layers[i];
            assert(encoder_layer_fits(*layer, self.shared_emb.dims()[1], self.config));
            let q_shape = *layer.self_attn.q_w.shape();
            let wi_shape = *layer.ffn.wi_w.shape();
            if n.checked_mul(q_shape.as_slice()[0]).is_none() || n.checked_mul(
                wi_shape.as_slice()[0],
            ).is_none() {
                assert(!length_fits_encoder_layer(self.encoder_layers@[i as int], n as nat));
                return false;
            }
            i = i + 1;
        }
        true
    }

    /// Whether no product of `n` or `m` with a size of the decoder exceeds
    /// `usize::MAX`, and there is something to decode from.
    fn decoder_takes_length(&self, n: usize, m: usize) -> (res: bool)
        requires
            model_fits(*self),
        ensures
            res == decoder_sizes_fit(*self, n as nat, m as nat),
    {
        let emb_shape = *self.shared_emb.shape();
        let head_shape = *self.lm_head.shape();
        if n.checked_mul(emb_shape.as_slice()[1]).is_none() || n.checked_mul(
            head_shape.as_slice()[0],
        ).is_none() {
            return false;
        }
        let count: usize = self.decoder_layers.len();
        let mut i: usize = 0;
        while i < count
            invariant
                i <= count,
                count == self.decoder_layers@.len(),
                model_fits(*self),
                forall|k: int|
                    0 <= k < i ==> length_fits_decoder_layer(
                        #[trigger] self.decoder_layers@[k],
                        n as nat,
                        m as nat,
                    ),
            decreases count - i,
        {
            let layer = &self.decoder_layers[i];
            assert(decoder_layer_fits(*layer, self.shared_emb.dims()[1], self.config));
            let q_shape = *layer.self_attn.q_w.shape();
            let cross_shape = *layer.cross_attn.q_w.shape();
            let wi_shape = *layer.ffn.wi_w.shape();
            if n.checked_mul(q_shape.as_slice()[0]).is_none() || n.checked_mul(
                cross_shape.as_slice()[0],
            ).is_none() || m.checked_mul(cross_shape.as_slice()[0]).is_none() || n.checked_mul(
                wi_shape.as_slice()[0],
            ).is_none() || (n > 0 && m == 0) {
                assert(!length_fits_decoder_layer(
                    self.decoder_layers@[i as int],
                    n as nat,
                    m as nat,
                ));
                return false;
            }
            i = i + 1;
        }
        true
    }
}

/// The position bias that a table gives for a sequence of `n` positions, if there
/// is a table; an error where the table does not serve that length.
fn position_bias<T: Copy, D: Fn(usize, usize, usize, usize) -> usize>(
    table: &Option<Tensor<T>>,
    n: usize,
    bidirectional: bool,
    config: &T5Config<T>,
    step: &D,
) -> (res: Result<Option<Tensor<T>>, ()>)
    requires
        forall|a: usize, b: usize, c: usize, d: usize|
            #[trigger] call_requires(*step, (a, b, c, d)),
    ensures
        match res {
            Ok(bias) => position_bias_gives(
                bias,
                *table,
                n as nat,
                bidirectional,
                *config,
                *step,
            ) && (bias matches Some(out) ==> out.wf() && out.dims() == seq![
                config.num_heads,
                n,
                n,
            ]),
            Err(_) => !bias_fits_length(*table, *config, bidirectional, *step, n as nat),
        },
{
    match table {
        None => Ok(None),
        Some(b) => {
            let shape = *b.shape();
            if shape.ndim() == 0 || shape.as_slice()[shape.ndim() - 1] != config.num_heads {
                return Err(());
            }
            match try_compute_relative_bias(
                b,
                n,
                n,
                bidirectional,
                config.relative_attention_num_buckets,
                config.relative_attention_max_distance,
                step,
            ) {
                Some(bias) => Ok(Some(bias)),
                None => Err(()),
            }
        },
    }
}

impl<T: Copy + Default + Add<Output = T> + Mul<Output = T>> T5Model<T> {
    /// Runs the encoder forward pass.
    ///
    /// Returns hidden states `[input_len, d_model]`.
    pub fn encode<
        N: Fn(&[T], &[T], T) -> Vec<T>,
        S: Fn(&[T]) -> Vec<T>,
        F: Fn(usize) -> T,
        G: Fn(T) -> T,
        R: Fn(T) -> T,
        D: Fn(usize, usize, usize, usize) -> usize,
    >(&self, input_ids: &[u32], kernels: &T5Kernels<N, S, F, G, R, D>) -> (res: Tensor<T>)
        requires
            model_fits(*self),
            encoder_accepts(*self, input_ids@, kernels.step),
            can_add::<T>(),
            can_multiply::<T>(),
            kernels_fit(*kernels),
        ensures
            is_matrix(res, input_ids@.len() as usize, self.shared_emb.dims()[1]),
            encode_gives(res, *self, input_ids@, *kernels),
    {
        self.try_encode(input_ids, kernels).unwrap()
    }

    /// Runs the encoder forward pass, as [`encode`](Self::encode); nothing where
    /// the encoder cannot run on these ids.
    pub fn try_encode<
        N: Fn(&[T], &[T], T) -> Vec<T>,
        S: Fn(&[T]) -> Vec<T>,
        F: Fn(usize) -> T,
        G: Fn(T) -> T,
        R: Fn(T) -> T,
        D: Fn(usize, usize, usize, usize) -> usize,
    >(&self, input_ids: &[u32], kernels: &T5Kernels<N, S, F, G, R, D>) -> (res: Option<Tensor<T>>)
        requires
            model_fits(*self),
            can_add::<T>(),
            can_multiply::<T>(),
            kernels_fit(*kernels),
        ensures
            match res {
                Some(out) => is_matrix(
                    out,
                    input_ids@.len() as usize,
                    self.shared_emb.dims()[1],
                ) && encode_gives(out, *self, input_ids@, *kernels),
                None => !encoder_accepts(*self, input_ids@, kernels.step),
            },
    {
        let emb_shape = *self.shared_emb.shape();
        let seq_len: usize = input_ids.len();
        if !check_ids(input_ids, emb_shape.as_slice()[0]) || !self.encoder_takes_length(seq_len) {
            return None;
        }
        let bias = if self.encoder_layers.len() > 0 {
            match position_bias(
                &self.encoder_layers[0].self_attn.rel_bias,
                seq_len,
                true,
                &self.config,
                &kernels.step,
            ) {
                Ok(bias) => bias,
                Err(_) => {
                    return None;
                },
            }
        } else {
            None
        };
        Some(self.encode_with_bias(input_ids, bias, kernels))
    }

    /// Runs the encoder with the position bias for the first block.
    fn encode_with_bias<
        N: Fn(&[T], &[T], T) -> Vec<T>,
        S: Fn(&[T]) -> Vec<T>,
        F: Fn(usize) -> T,
        G: Fn(T) -> T,
        R: Fn(T) -> T,
        D: Fn(usize, usize, usize, usize) -> usize,
    >(
        &self,
        input_ids: &[u32],
        enc_bias: Option<Tensor<T>>,
        kernels: &T5Kernels<N, S, F, G, R, D>,
    ) -> (res: Tensor<T>)
        requires
            model_fits(*self),
            ids_below(input_ids@, self.shared_emb.dims()[0]),
            encoder_sizes_fit(*self, input_ids@.len()),
            position_bias_gives(
                enc_bias,
                encoder_table(*self),
                input_ids@.len(),
                true,
                self.config,
                kernels.step,
            ),
            enc_bias matches Some(b) ==> b.wf() && b.dims() == seq![
                self.config.num_heads,
                input_ids@.len() as usize,
                input_ids@.len() as usize,
            ],
            can_add::<T>(),
            can_multiply::<T>(),
            kernels_fit(*kernels),
        ensures
            is_matrix(res, input_ids@.len() as usize, self.shared_emb.dims()[1]),
            encode_gives(res, *self, input_ids@, *kernels),
    {
        let seq_len: usize = input_ids.len();
        let ghost d = self.shared_emb.dims()[1];
        let mut state = embedding(input_ids, &self.shared_emb);
        let n: usize = self.encoder_layers.len();
        let ghost mut states: Seq<Tensor<T>> = seq![state];
        let mut i: usize = 0;
        while i < n
            invariant
                i <= n,
                n == self.encoder_layers@.len(),
                model_fits(*self),
                encoder_sizes_fit(*self, input_ids@.len()),
                enc_bias matches Some(b) ==> b.wf() && b.dims() == seq![
                    self.config.num_heads,
                    seq_len,
                    seq_len,
                ],
                can_add::<T>(),
                can_multiply::<T>(),
                kernels_fit(*kernels),
                seq_len == input_ids@.len(),
                d == self.shared_emb.dims()[1],
                is_matrix(state, seq_len, d),
                position_bias_gives(
                    enc_bias,
                    encoder_table(*self),
                    seq_len as nat,
                    true,
                    self.config,
                    kernels.step,
                ),
                states.len() == i + 1,
                states.last() == state,
                is_lookup(states[0], input_ids@, self.shared_emb),
                encoder_layers_give(states, *self, enc_bias, *kernels),
            decreases n - i,
        {
            let bias = if i == 0 {
                match &enc_bias {
                    Some(b) => Some(b),
                    None => None,
                }
            } else {
                None
            };
            assert(encoder_layer_fits(self.encoder_layers@[i as int], d, self.config));
            assert(length_fits_encoder_layer(self.encoder_layers@[i as int], seq_len as nat));
            let next = encoder_layer_forward(
                &state,
                &self.encoder_layers[i],
                &self.config,
                bias,
                kernels,
            );
            proof {
                let longer = states.push(next);
                assert forall|k: int| 0 <= k < longer.len() - 1 implies encoder_layer_may_give(
                    longer[k + 1],
                    longer[k],
                    #[trigger] self.encoder_layers@[k],
                    self.config,
                    bias_for_layer(&enc_bias, k),
                    *kernels,
                ) by {
                    if k < states.len() - 1 {
                        assert(longer[k + 1] == states[k + 1]);
                        assert(longer[k] == states[k]);
                    } else {
                        assert(longer[k + 1] == next);
                        assert(longer[k] == state);
                        assert(bias_for_layer(&enc_bias, k) == bias);
                    }
                }
                states = longer;
            }
            state = next;
            i = i + 1;
        }
        rms_norm_rows(&state, &self.encoder_final_ln, self.config.layer_norm_eps, &kernels.norm)
    }

    /// Runs the decoder forward pass for one step, producing logits.
    ///
    /// `decoder_ids`: decoder input ids (including `decoder_start_token_id`).
    /// `encoder_output`: from [`T5Model::encode`].
    /// Returns logits `[decoder_len, vocab_size]`.
    pub fn decode_step<
        N: Fn(&[T], &[T], T) -> Vec<T>,
        S: Fn(&[T]) -> Vec<T>,
        F: Fn(usize) -> T,
        G: Fn(T) -> T,
        R: Fn(T) -> T,
        D: Fn(usize, usize, usize, usize) -> usize,
    >(
        &self,
        decoder_ids: &[u32],
        encoder_output: &Tensor<T>,
        kernels: &T5Kernels<N, S, F, G, R, D>,
    ) -> (res: Tensor<T>)
        requires
            model_fits(*self),
            decoder_accepts(*self, decoder_ids@, *encoder_output, kernels.step),
            can_add::<T>(),
            can_multiply::<T>(),
            kernels_fit(*kernels),
        ensures
            is_matrix(res, decoder_ids@.len() as usize, self.lm_head.dims()[0]),
            decode_gives(res, *self, decoder_ids@, *encoder_output, *kernels),
    {
        self.try_decode_step(decoder_ids, encoder_output, kernels).unwrap()
    }

    /// Runs the decoder forward pass, as [`decode_step`](Self::decode_step);
    /// nothing where the decoder cannot run on these ids.
    pub fn try_decode_step<
        N: Fn(&[T], &[T], T) -> Vec<T>,
        S: Fn(&[T]) -> Vec<T>,
        F: Fn(usize) -> T,
        G: Fn(T) -> T,
        R: Fn(T) -> T,
        D: Fn(usize, usize, usize, usize) -> usize,
    >(
        &self,
        decoder_ids: &[u32],
        encoder_output: &Tensor<T>,
        kernels: &T5Kernels<N, S, F, G, R, D>,
    ) -> (res: Option<Tensor<T>>)
        requires
            model_fits(*self),
            can_add::<T>(),
            can_multiply::<T>(),
            kernels_fit(*kernels),
        ensures
            match res {
                Some(out) => is_matrix(
                    out,
                    decoder_ids@.len() as usize,
                    self.lm_head.dims()[0],
                ) && decode_gives(out, *self, decoder_ids@, *encoder_output, *kernels),
                None => !decoder_accepts(
                    *self,
                    decoder_ids@,
                    *encoder_output,
                    kernels.step,
                ),
            },
    {
        let emb_shape = *self.shared_emb.shape();
        let enc_shape = *encoder_output.shape();
        let enc_dims = enc_shape.as_slice();
        let seq_len: usize = decoder_ids.len();
        if !check_ids(decoder_ids, emb_shape.as_slice()[0]) || enc_dims.len() != 2 || !check_matrix(
            encoder_output,
            enc_dims[0],
            emb_shape.as_slice()[1],
        ) || !self.decoder_takes_length(seq_len, enc_dims[0]) {
            return None;
        }
        let bias = if self.decoder_layers.len() > 0 {
            match position_bias(
                &self.decoder_layers[0].self_attn.rel_bias,
                seq_len,
                false,
                &self.config,
                &kernels.step,
            ) {
                Ok(bias) => bias,
                Err(_) => {
                    return None;
                },
            }
        } else {
            None
        };
        Some(self.decode_with_bias(decoder_ids, encoder_output, bias, kernels))
    }

    /// Runs the decoder with the position bias for the first block.
    fn decode_with_bias<
        N: Fn(&[T], &[T], T) -> Vec<T>,
        S: Fn(&[T]) -> Vec<T>,
        F: Fn(usize) -> T,
        G: Fn(T) -> T,
        R: Fn(T) -> T,
        D: Fn(usize, usize, usize, usize) -> usize,
    >(
        &self,
        decoder_ids: &[u32],
        encoder_output: &Tensor<T>,
        dec_bias: Option<Tensor<T>>,
        kernels: &T5Kernels<N, S, F, G, R, D>,
    ) -> (res: Tensor<T>)
        requires
            model_fits(*self),
            ids_below(decoder_ids@, self.shared_emb.dims()[0]),
            encoder_output.dims().len() == 2,
            is_matrix(
                *encoder_output,
                encoder_output.dims()[0],
                self.shared_emb.dims()[1],
            ),
            decoder_sizes_fit(*self, decoder_ids@.len(), encoder_output.dims()[0] as nat),
            position_bias_gives(
                dec_bias,
                decoder_table(*self),
                decoder_ids@.len(),
                false,
                self.config,
                kernels.step,
            ),
            dec_bias matches Some(b) ==> b.wf() && b.dims() == seq![
                self.config.num_heads,
                decoder_ids@.len() as usize,
                decoder_ids@.len() as usize,
            ],
            can_add::<T>(),
            can_multiply::<T>(),
            kernels_fit(*kernels),
        ensures
            is_matrix(res, decoder_ids@.len() as usize, self.lm_head.dims()[0]),
            decode_gives(res, *self, decoder_ids@, *encoder_output, *kernels),
    {
        let seq_len: usize = decoder_ids.len();
        let ghost d = self.shared_emb.dims()[1];
        let ghost m = encoder_output.dims()[0] as nat;
        let mut state = embedding(decoder_ids, &self.shared_emb);
        let n: usize = self.decoder_layers.len();
        let ghost mut states: Seq<Tensor<T>> = seq![state];
        let mut i: usize = 0;
        while i < n
            invariant
                i <= n,
                n == self.decoder_layers@.len(),
                model_fits(*self),
                m == encoder_output.dims()[0],
                decoder_sizes_fit(*self, decoder_ids@.len(), m),
                dec_bias matches Some(b) ==> b.wf() && b.dims() == seq![
                    self.config.num_heads,
                    seq_len,
                    seq_len,
                ],
                can_add::<T>(),
                can_multiply::<T>(),
                kernels_fit(*kernels),
                seq_len == decoder_ids@.len(),
                d == self.shared_emb.dims()[1],
                is_matrix(state, seq_len, d),
                is_matrix(*encoder_output, encoder_output.dims()[0], d),
                position_bias_gives(
                    dec_bias,
                    decoder_table(*self),
                    seq_len as nat,
                    false,
                    self.config,
                    kernels.step,
                ),
                states.len() == i + 1,
                states.last() == state,
                is_lookup(states[0], decoder_ids@, self.shared_emb),
                decoder_layers_give(states, *self, *encoder_output, dec_bias, *kernels),
            decreases n - i,
        {
            let bias = if i == 0 {
                match &dec_bias {
                    Some(b) => Some(b),
                    None => None,
                }
            } else {
                None
            };
            assert(decoder_layer_fits(self.decoder_layers@[i as int], d, self.config));
            assert(length_fits_decoder_layer(self.decoder_layers@[i as int], seq_len as nat, m));
            let next = decoder_layer_forward(
                &state,
                &self.decoder_layers[i],
                encoder_output,
                &self.config,
                bias,
                kernels,
            );
            proof {
                let longer = states.push(next);
                assert forall|k: int| 0 <= k < longer.len() - 1 implies decoder_layer_may_give(
                    longer[k + 1],
                    longer[k],
                    #[trigger] self.decoder_layers@[k],
                    *encoder_output,
                    self.config,
                    bias_for_layer(&dec_bias, k),
                    *kernels,
                ) by {
                    if k < states.len() - 1 {
                        assert(longer[k + 1] == states[k + 1]);
                        assert(longer[k] == states[k]);
                    } else {
                        assert(longer[k + 1] == next);
                        assert(longer[k] == state);
                        assert(bias_for_layer(&dec_bias, k) == bias);
                    }
                }
                states = longer;
            }
            state = next;
            i = i + 1;
        }
        let hidden = rms_norm_rows(
            &state,
            &self.decoder_final_ln,
            self.config.layer_norm_eps,
            &kernels.norm,
        );
        assert(decoder_states_give(hidden, *self, decoder_ids@, *encoder_output, *kernels));
        matmul_t_b(&hidden, &self.lm_head)
    }
}

/// The decoder can generate for an encoded sequence: it can run on every sequence
/// that comes up, where a token is to follow it.
pub open spec fn decoding_fits<
    T: Copy + Default + PartialOrd + Add<Output = T> + Mul<Output = T>,
    N: Fn(&[T], &[T], T) -> Vec<T>,
    S: Fn(&[T]) -> Vec<T>,
    F: Fn(usize) -> T,
    G: Fn(T) -> T,
    R: Fn(T) -> T,
    D: Fn(usize, usize, usize, usize) -> usize,
>(
    model: T5Model<T>,
    encoder_out: Tensor<T>,
    max_new_tokens: nat,
    kernels: T5Kernels<N, S, F, G, R, D>,
) -> bool {
    runs_through(
        |ids: Seq<u32>, token: u32| model.may_pick(ids, &encoder_out, &kernels, token),
        |ids: Seq<u32>| model.can_run(ids, &encoder_out, &kernels.step),
        None,
        Some(model.eos_token_id),
        seq![model.decoder_start_token_id],
        max_new_tokens,
    )
}

/// The model can generate: the encoder can run on the ids, and the decoder can
/// generate for whatever the encoder makes of them.
pub open spec fn generation_fits<
    T: Copy + Default + PartialOrd + Add<Output = T> + Mul<Output = T>,
    N: Fn(&[T], &[T], T) -> Vec<T>,
    S: Fn(&[T]) -> Vec<T>,
    F: Fn(usize) -> T,
    G: Fn(T) -> T,
    R: Fn(T) -> T,
    D: Fn(usize, usize, usize, usize) -> usize,
>(
    model: T5Model<T>,
    encoder_ids: Seq<u32>,
    max_new_tokens: nat,
    kernels: T5Kernels<N, S, F, G, R, D>,
) -> bool {
    &&& encoder_accepts(model, encoder_ids, kernels.step)
    &&& forall|encoder_out: Tensor<T>|
        is_matrix(encoder_out, encoder_ids.len() as usize, model.shared_emb.dims()[1])
            && #[trigger] encode_gives(encoder_out, model, encoder_ids, kernels) ==> decoding_fits(
            model,
            encoder_out,
            max_new_tokens,
            kernels,
        )
}

/// A table of relative position biases has a row for every bucket, and there are
/// not too many pairs of `n` positions.
pub open spec fn has_full_table<T>(table: Option<Tensor<T>>, config: T5Config<T>, n: nat) -> bool {
    table matches Some(b) ==> {
        &&& b.wf()
        &&& b.dims().len() > 0
        &&& b.dims().last() == config.num_heads
        &&& n <= i32::MAX
        &&& config.num_heads * n * n <= usize::MAX
        &&& config.relative_attention_num_buckets > 0
        &&& config.relative_attention_num_buckets * config.num_heads <= b.elems().len()
    }
}

/// A full table serves sequences of that length, and shorter ones.
pub proof fn lemma_full_table_fits<T, D: Fn(usize, usize, usize, usize) -> usize>(
    table: Option<Tensor<T>>,
    config: T5Config<T>,
    bidirectional: bool,
    step: D,
    n: nat,
    shorter: nat,
)
    requires
        has_full_table(table, config, n),
        shorter <= n,
    ensures
        bias_fits_length(table, config, bidirectional, step, shorter),
{
    if let Some(b) = table {
        lemma_full_table_covers(
            b.elems().len() as int,
            config.num_heads as int,
            shorter as int,
            shorter as int,
            bidirectional,
            config.relative_attention_num_buckets as int,
            config.relative_attention_max_distance,
            step,
        );
        assert(config.num_heads * shorter * shorter <= config.num_heads * n * n)
            by (nonlinear_arith)
            requires
                shorter <= n,
        ;
    }
}

/// A decoder whose sizes fit a length fit a shorter one.
proof fn lemma_shorter_sizes_fit<T>(model: T5Model<T>, n: nat, m: nat, shorter: nat)
    requires
        decoder_sizes_fit(model, n, m),
        shorter <= n,
    ensures
        decoder_sizes_fit(model, shorter, m),
{
    let d = model.shared_emb.dims()[1];
    let rows = model.lm_head.dims()[0];
    assert(shorter * d <= n * d && shorter * rows <= n * rows) by (nonlinear_arith)
        requires
            shorter <= n,
    ;
    assert forall|i: int| 0 <= i < model.decoder_layers@.len() implies length_fits_decoder_layer(
        #[trigger] model.decoder_layers@[i],
        shorter,
        m,
    ) by {
        let layer = model.decoder_layers@[i];
        assert(length_fits_decoder_layer(layer, n, m));
        let a = layer.self_attn.q_w.dims()[0];
        let b = layer.cross_attn.q_w.dims()[0];
        let c = layer.ffn.wi_w.dims()[0];
        assert(shorter * a <= n * a && shorter * b <= n * b && shorter * c <= n * c)
            by (nonlinear_arith)
            requires
                shorter <= n,
        ;
    }
}

/// Every token that may come next is one of the vocabulary.
pub proof fn lemma_next_token_in_vocabulary<
    T: Copy + Default + PartialOrd + Add<Output = T> + Mul<Output = T>,
    N: Fn(&[T], &[T], T) -> Vec<T>,
    S: Fn(&[T]) -> Vec<T>,
    F: Fn(usize) -> T,
    G: Fn(T) -> T,
    R: Fn(T) -> T,
    D: Fn(usize, usize, usize, usize) -> usize,
>(
    model: T5Model<T>,
    ids: Seq<u32>,
    encoder_out: Tensor<T>,
    kernels: T5Kernels<N, S, F, G, R, D>,
    token: u32,
)
    requires
        next_token_gives(model, ids, encoder_out, kernels, token),
        model.config.vocab_size > 0,
    ensures
        token < model.config.vocab_size,
{
    let (logits, best) = choose|logits: Tensor<T>, best: usize|
        #![trigger decode_gives(logits, model, ids, encoder_out, kernels), is_token_of(logits, model, ids.len(), best)]
        decode_gives(logits, model, ids, encoder_out, kernels) && is_token_of(
            logits,
            model,
            ids.len(),
            best,
        ) && token == best as u32;
    let row = last_row(logits, model, ids.len());
    lemma_argmax_in_range(row, row.len() as int, best as int);
    assert(best as u32 <= best);
}

/// The decoder can generate for `m` encoded tokens: the start token and every
/// token of the vocabulary have an embedding, and the sizes and the bias table of
/// the decoder serve the longest sequence that may come up.
pub open spec fn decoder_serves<T>(model: T5Model<T>, max_new_tokens: nat, m: nat) -> bool {
    &&& model.decoder_start_token_id < model.shared_emb.dims()[0]
    &&& 0 < model.config.vocab_size <= model.shared_emb.dims()[0]
    &&& model.config.vocab_size <= model.lm_head.dims()[0]
    &&& decoder_sizes_fit(model, max_new_tokens, m)
    &&& has_full_table(decoder_table(model), model.config, max_new_tokens)
}

proof fn lemma_decoding_runs<
    T: Copy + Default + PartialOrd + Add<Output = T> + Mul<Output = T>,
    N: Fn(&[T], &[T], T) -> Vec<T>,
    S: Fn(&[T]) -> Vec<T>,
    F: Fn(usize) -> T,
    G: Fn(T) -> T,
    R: Fn(T) -> T,
    D: Fn(usize, usize, usize, usize) -> usize,
>(
    model: T5Model<T>,
    encoder_out: Tensor<T>,
    ids: Seq<u32>,
    left: nat,
    longest: nat,
    kernels: T5Kernels<N, S, F, G, R, D>,
)
    requires
        encoder_out.dims().len() == 2,
        is_matrix(encoder_out, encoder_out.dims()[0], model.shared_emb.dims()[1]),
        decoder_serves(model, longest, encoder_out.dims()[0] as nat),
        ids.len() > 0,
        ids_below(ids, model.shared_emb.dims()[0]),
        ids.len() + left <= longest + 1,
    ensures
        runs_through(
            |ids: Seq<u32>, token: u32| model.may_pick(ids, &encoder_out, &kernels, token),
            |ids: Seq<u32>| model.can_run(ids, &encoder_out, &kernels.step),
            None,
            Some(model.eos_token_id),
            ids,
            left,
        ),
    decreases left,
{
    if left > 0 {
        let m = encoder_out.dims()[0] as nat;
        lemma_shorter_sizes_fit(model, longest, m, ids.len());
        lemma_full_table_fits(
            decoder_table(model),
            model.config,
            false,
            kernels.step,
            longest,
            ids.len(),
        );
        assert forall|token: u32| #[trigger]
            model.may_pick(ids, &encoder_out, &kernels, token) implies runs_through(
            |ids: Seq<u32>, token: u32| model.may_pick(ids, &encoder_out, &kernels, token),
            |ids: Seq<u32>| model.can_run(ids, &encoder_out, &kernels.step),
            None,
            Some(model.eos_token_id),
            ids.push(token),
            (left - 1) as nat,
        ) by {
            lemma_next_token_in_vocabulary(model, ids, encoder_out, kernels, token);
            lemma_decoding_runs(
                model,
                encoder_out,
                ids.push(token),
                (left - 1) as nat,
                longest,
                kernels,
            );
        }
    }
}

/// With bias tables that have a row for every bucket the model can generate from
/// ids that have embeddings, as long as every token of the vocabulary has one and
/// no product of a length with a size of the model exceeds `usize::MAX`.
pub proof fn lemma_generation_fits<
    T: Copy + Default + PartialOrd + Add<Output = T> + Mul<Output = T>,
    N: Fn(&[T], &[T], T) -> Vec<T>,
    S: Fn(&[T]) -> Vec<T>,
    F: Fn(usize) -> T,
    G: Fn(T) -> T,
    R: Fn(T) -> T,
    D: Fn(usize, usize, usize, usize) -> usize,
>(
    model: T5Model<T>,
    encoder_ids: Seq<u32>,
    max_new_tokens: nat,
    kernels: T5Kernels<N, S, F, G, R, D>,
)
    requires
        model_fits(model),
        ids_below(encoder_ids, model.shared_emb.dims()[0]),
        encoder_sizes_fit(model, encoder_ids.len()),
        has_full_table(encoder_table(model), model.config, encoder_ids.len()),
        decoder_serves(model, max_new_tokens, encoder_ids.len()),
    ensures
        generation_fits(model, encoder_ids, max_new_tokens, kernels),
{
    let n = encoder_ids.len();
    let d = model.shared_emb.dims()[1];
    lemma_full_table_fits(encoder_table(model), model.config, true, kernels.step, n, n);
    assert(n <= usize::MAX) by (nonlinear_arith)
        requires
            n * d <= usize::MAX,
            d > 0,
    ;
    assert forall|encoder_out: Tensor<T>|
        is_matrix(encoder_out, n as usize, d) && #[trigger] encode_gives(
            encoder_out,
            model,
            encoder_ids,
            kernels,
        ) implies decoding_fits(model, encoder_out, max_new_tokens, kernels) by {
        lemma_decoding_runs(
            model,
            encoder_out,
            seq![model.decoder_start_token_id],
            max_new_tokens,
            max_new_tokens,
            kernels,
        );
    }
}

/// Greedy generation for an encoded sequence may give `out`: what comes behind
/// the start token.
pub open spec fn greedy_gives<
    T: Copy + Default + PartialOrd + Add<Output = T> + Mul<Output = T>,
    N: Fn(&[T], &[T], T) -> Vec<T>,
    S: Fn(&[T]) -> Vec<T>,
    F: Fn(usize) -> T,
    G: Fn(T) -> T,
    R: Fn(T) -> T,
    D: Fn(usize, usize, usize, usize) -> usize,
>(
    out: Seq<u32>,
    model: T5Model<T>,
    encoder_out: Tensor<T>,
    max_new_tokens: nat,
    kernels: T5Kernels<N, S, F, G, R, D>,
) -> bool {
    generates(
        |ids: Seq<u32>, token: u32| model.may_pick(ids, &encoder_out, &kernels, token),
        None,
        Some(model.eos_token_id),
        seq![model.decoder_start_token_id],
        max_new_tokens,
        seq![model.decoder_start_token_id] + out,
    )
}

/// Every generated token has the greatest logit behind the start token and the
/// tokens before it, and of equal ones it is the last, where `>` orders the
/// logits as `rank` does.
pub proof fn lemma_greedy_tokens_are_greatest<
    T: Copy + Default + PartialOrd + Add<Output = T> + Mul<Output = T>,
    N: Fn(&[T], &[T], T) -> Vec<T>,
    S: Fn(&[T]) -> Vec<T>,
    F: Fn(usize) -> T,
    G: Fn(T) -> T,
    R: Fn(T) -> T,
    D: Fn(usize, usize, usize, usize) -> usize,
>(
    out: Seq<u32>,
    model: T5Model<T>,
    encoder_out: Tensor<T>,
    max_new_tokens: nat,
    kernels: T5Kernels<N, S, F, G, R, D>,
    rank: spec_fn(T) -> int,
    i: int,
)
    requires
        greedy_gives(out, model, encoder_out, max_new_tokens, kernels),
        0 <= i < out.len(),
        0 < model.config.vocab_size <= u32::MAX,
        ordered_by(rank),
    ensures
        exists|logits: Tensor<T>|
            #[trigger] decode_gives(
                logits,
                model,
                seq![model.decoder_start_token_id] + out.take(i),
                encoder_out,
                kernels,
            ) && is_greatest(last_row(logits, model, (i + 1) as nat), rank, out[i] as int),
{
    let start = seq![model.decoder_start_token_id];
    let all = start + out;
    lemma_each_token_follows(
        |ids: Seq<u32>, token: u32| model.may_pick(ids, &encoder_out, &kernels, token),
        None,
        Some(model.eos_token_id),
        start,
        max_new_tokens,
        all,
        i + 1,
    );
    let ids = start + out.take(i);
    assert(all.take(i + 1) =~= ids);
    let (logits, best) = choose|logits: Tensor<T>, best: usize|
        #![trigger decode_gives(logits, model, ids, encoder_out, kernels), is_token_of(logits, model, ids.len(), best)]
        decode_gives(logits, model, ids, encoder_out, kernels) && is_token_of(
            logits,
            model,
            ids.len(),
            best,
        ) && all[i + 1] == best as u32;
    let row = last_row(logits, model, (i + 1) as nat);
    lemma_argmax_is_greatest(row, row.len() as int, best as int, rank);
    assert(is_greatest(row, rank, out[i] as int));
}

impl<T: Copy + Default + PartialOrd + Add<Output = T> + Mul<Output = T>> T5Model<T> {
    /// The decoder can find the token that follows these ids.
    pub open spec fn can_run<D: Fn(usize, usize, usize, usize) -> usize>(
        &self,
        ids: Seq<u32>,
        encoder_out: &Tensor<T>,
        step: &D,
    ) -> bool {
        &&& ids.len() > 0
        &&& self.config.vocab_size <= self.lm_head.dims()[0]
        &&& decoder_accepts(*self, ids, *encoder_out, *step)
    }

    /// The token may be the next one.
    pub open spec fn may_pick<
        N: Fn(&[T], &[T], T) -> Vec<T>,
        S: Fn(&[T]) -> Vec<T>,
        F: Fn(usize) -> T,
        G: Fn(T) -> T,
        R: Fn(T) -> T,
        D: Fn(usize, usize, usize, usize) -> usize,
    >(
        &self,
        ids: Seq<u32>,
        encoder_out: &Tensor<T>,
        kernels: &T5Kernels<N, S, F, G, R, D>,
        token: u32,
    ) -> bool {
        next_token_gives(*self, ids, *encoder_out, *kernels, token)
    }

    /// The token with the greatest logit behind the decoded ones, if the decoder
    /// can run on them.
    fn next_token<
        N: Fn(&[T], &[T], T) -> Vec<T>,
        S: Fn(&[T]) -> Vec<T>,
        F: Fn(usize) -> T,
        G: Fn(T) -> T,
        R: Fn(T) -> T,
        D: Fn(usize, usize, usize, usize) -> usize,
    >(
        &self,
        decoder_ids: &[u32],
        encoder_out: &Tensor<T>,
        kernels: &T5Kernels<N, S, F, G, R, D>,
    ) -> (res: Option<u32>)
        requires
            model_fits(*self),
            can_add::<T>(),
            can_multiply::<T>(),
            can_order::<T>(),
            kernels_fit(*kernels),
        ensures
            match res {
                Some(token) => self.may_pick(decoder_ids@, encoder_out, kernels, token),
                None => !self.can_run(decoder_ids@, encoder_out, &kernels.step),
            },
    {
        let head_shape = *self.lm_head.shape();
        let width: usize = head_shape.as_slice()[0];
        let vocab: usize = self.config.vocab_size;
        let n: usize = decoder_ids.len();
        if n == 0 || vocab > width {
            return None;
        }
        let logits = match self.try_decode_step(decoder_ids, encoder_out, kernels) {
            Some(logits) => logits,
            None => {
                return None;
            },
        };
        let data = logits.data();
        let _len: usize = data.len();
        proof {
            lemma_product_2(logits.dims());
            lemma_row_bounds(n - 1, n as int, width as int);
        }
        let last_off: usize = (n - 1) * width;
        let row = slice_subrange(data, last_off, last_off + vocab);
        assert(row@ =~= last_row(logits, *self, n as nat));
        let best: usize = argmax(row);
        assert(is_token_of(logits, *self, n as nat, best));
        Some(best as u32)
    }

    /// Greedy sequence-to-sequence generation.
    ///
    /// Encodes `encoder_ids`, then decodes greedily up to `max_new_tokens`.
    /// Returns the generated token ids (not including the start token).
    pub fn generate_greedy<
        N: Fn(&[T], &[T], T) -> Vec<T>,
        S: Fn(&[T]) -> Vec<T>,
        F: Fn(usize) -> T,
        G: Fn(T) -> T,
        R: Fn(T) -> T,
        D: Fn(usize, usize, usize, usize) -> usize,
    >(
        &self,
        encoder_ids: &[u32],
        max_new_tokens: usize,
        kernels: &T5Kernels<N, S, F, G, R, D>,
    ) -> (res: Vec<u32>)
        requires
            model_fits(*self),
            generation_fits(*self, encoder_ids@, max_new_tokens as nat, *kernels),
            can_add::<T>(),
            can_multiply::<T>(),
            can_order::<T>(),
            kernels_fit(*kernels),
        ensures
            exists|encoder_out: Tensor<T>|
                #[trigger] encode_gives(encoder_out, *self, encoder_ids@, *kernels) && greedy_gives(
                    res@,
                    *self,
                    encoder_out,
                    max_new_tokens as nat,
                    *kernels,
                ),
    {
        self.try_generate_greedy(encoder_ids, max_new_tokens, kernels).unwrap()
    }

    /// Greedy sequence-to-sequence generation, as
    /// [`generate_greedy`](Self::generate_greedy); nothing where the encoder cannot
    /// run on the ids, or a token is to follow a sequence that the decoder cannot
    /// run on.
    pub fn try_generate_greedy<
        N: Fn(&[T], &[T], T) -> Vec<T>,
        S: Fn(&[T]) -> Vec<T>,
        F: Fn(usize) -> T,
        G: Fn(T) -> T,
        R: Fn(T) -> T,
        D: Fn(usize, usize, usize, usize) -> usize,
    >(
        &self,
        encoder_ids: &[u32],
        max_new_tokens: usize,
        kernels: &T5Kernels<N, S, F, G, R, D>,
    ) -> (res: Option<Vec<u32>>)
        requires
            model_fits(*self),
            can_add::<T>(),
            can_multiply::<T>(),
            can_order::<T>(),
            kernels_fit(*kernels),
        ensures
            match res {
                Some(out) => exists|encoder_out: Tensor<T>| #[trigger]
                    encode_gives(encoder_out, *self, encoder_ids@, *kernels) && greedy_gives(
                        out@,
                        *self,
                        encoder_out,
                        max_new_tokens as nat,
                        *kernels,
                    ),
                None => !generation_fits(*self, encoder_ids@, max_new_tokens as nat, *kernels),
            },
    {
        let encoder_out = match self.try_encode(encoder_ids, kernels) {
            Some(encoder_out) => encoder_out,
            None => {
                return None;
            },
        };
        let mut start: Vec<u32> = Vec::new();
        start.push(self.decoder_start_token_id);
        assert(start@ =~= seq![self.decoder_start_token_id]);
        let ghost enc = encoder_out;
        let ghost next = |ids: Seq<u32>, token: u32| self.may_pick(ids, &enc, kernels, token);
        let ghost ready = |ids: Seq<u32>| self.can_run(ids, &enc, &kernels.step);
        let pick = |ids: &[u32]| -> (found: Option<u32>)
            ensures
                match found {
                    Some(token) => self.may_pick(ids@, &encoder_out, kernels, token),
                    None => !self.can_run(ids@, &encoder_out, &kernels.step),
                },
            { self.next_token(ids, &encoder_out, kernels) };
        let all = match generate(
            start.as_slice(),
            max_new_tokens,
            None,
            Some(self.eos_token_id),
            &pick,
            Ghost(next),
            Ghost(ready),
        ) {
            Some(all) => all,
            None => {
                assert(!decoding_fits(*self, enc, max_new_tokens as nat, *kernels));
                return None;
            },
        };
        proof {
            lemma_generation(
                next,
                None,
                Some(self.eos_token_id),
                start@,
                max_new_tokens as nat,
                all@,
            );
        }
        let count: usize = all.len();
        let res = slice_to_vec(slice_subrange(all.as_slice(), 1, count));
        proof {
            assert(all@[0] == all@.take(1)[0]);
            assert(seq![self.decoder_start_token_id] + res@ =~= all@);
            assert(greedy_gives(res@, *self, enc, max_new_tokens as nat, *kernels));
        }
        Some(res)
    }
}

} // verus!
