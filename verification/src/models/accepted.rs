//! Which weights and which inputs are accepted.

use vstd::prelude::*;
use core::ops::{Add, Mul};
use crate::models::bert::{BertLayer, BertModel, LinearWeight};
use crate::models::gpt2::{Gpt2Layer, Gpt2Model};
use crate::models::t5::{T5DecoderLayer, T5EncoderLayer, T5Ffn, T5Model};
use crate::tensor::Tensor;

verus! {

/// A tensor of this shape.
pub open spec fn shaped<T>(t: Tensor<T>, dims: Seq<usize>) -> bool {
    t.wf() && t.dims() == dims
}

/// A weight of this shape, in whatever precision.
pub open spec fn weight_shaped<T>(w: LinearWeight<T>, dims: Seq<usize>) -> bool {
    match w {
        LinearWeight::F32(w) => shaped(w, dims),
        LinearWeight::I8(w) => w.dims() == dims,
        LinearWeight::U8(w) => w.dims() == dims,
    }
}

/// A layer of a GPT-2 decoder with these sizes.
pub open spec fn gpt2_layer_shaped<T>(layer: Gpt2Layer<T>, hidden: usize, fc: usize) -> bool {
    &&& shaped(layer.ln_1_w, seq![hidden])
    &&& shaped(layer.ln_1_b, seq![hidden])
    &&& shaped(layer.attn.c_attn_w, seq![(3 * hidden) as usize, hidden])
    &&& shaped(layer.attn.c_attn_b, seq![(3 * hidden) as usize])
    &&& shaped(layer.attn.c_proj_w, seq![hidden, hidden])
    &&& shaped(layer.attn.c_proj_b, seq![hidden])
    &&& shaped(layer.ln_2_w, seq![hidden])
    &&& shaped(layer.ln_2_b, seq![hidden])
    &&& shaped(layer.mlp.fc_w, seq![fc, hidden])
    &&& shaped(layer.mlp.fc_b, seq![fc])
    &&& shaped(layer.mlp.proj_w, seq![hidden, fc])
    &&& shaped(layer.mlp.proj_b, seq![hidden])
}

/// A GPT-2 decoder whose weights have the shapes of its configuration can run, on
/// every sequence of known tokens that is no longer than its positions.
pub proof fn lemma_gpt2_is_accepted<
    T: Copy + Default + PartialOrd + Add<Output = T> + Mul<Output = T>,
>(model: Gpt2Model<T>, ids: Seq<u32>)
    requires
        ({
            let c = model.config;
            let (h, n, v) = (c.hidden_size, c.max_position_embeddings, c.vocab_size);
            &&& 0 < h
            &&& 3 * h <= usize::MAX
            &&& 0 < c.num_attention_heads
            &&& h % c.num_attention_heads == 0
            &&& 0 < c.intermediate_size
            &&& shaped(model.wte, seq![v, h])
            &&& shaped(model.wpe, seq![n, h])
            &&& shaped(model.ln_f_w, seq![h])
            &&& shaped(model.ln_f_b, seq![h])
            &&& shaped(model.lm_head, seq![v, h])
            &&& forall|i: int|
                0 <= i < model.layers@.len() ==> gpt2_layer_shaped(
                    #[trigger] model.layers@[i],
                    h,
                    c.intermediate_size,
                )
            &&& 0 < ids.len() <= n
            &&& n <= u32::MAX
            &&& forall|i: int| 0 <= i < ids.len() ==> #[trigger] ids[i] < v
            &&& ids.len() * (3 * h) <= usize::MAX
            &&& ids.len() * c.intermediate_size <= usize::MAX
            &&& ids.len() * v <= usize::MAX
        }),
    ensures
        crate::models::gpt2::forward::model_fits(model),
        model.can_run(ids),
{
    let c = model.config;
    let h = c.hidden_size;
    assert(ids.len() * h <= ids.len() * (3 * h)) by (nonlinear_arith)
        requires
            h >= 0,
            ids.len() >= 0,
    ;
    assert forall|i: int| 0 <= i < model.layers@.len() implies {
        &&& crate::models::gpt2::forward::layer_fits(#[trigger] model.layers@[i], h, h)
        &&& crate::models::gpt2::forward::length_fits_layer(model.layers@[i], h, ids.len())
    } by {
        assert(gpt2_layer_shaped(model.layers@[i], h, c.intermediate_size));
    }
}

/// A layer of a BERT encoder with these sizes.
pub open spec fn bert_layer_shaped<T>(layer: BertLayer<T>, hidden: usize, inter: usize) -> bool {
    let s = layer.attention.self_attn;
    &&& weight_shaped(s.wq, seq![hidden, hidden])
    &&& shaped(s.bq, seq![hidden])
    &&& weight_shaped(s.wk, seq![hidden, hidden])
    &&& shaped(s.bk, seq![hidden])
    &&& weight_shaped(s.wv, seq![hidden, hidden])
    &&& shaped(s.bv, seq![hidden])
    &&& weight_shaped(layer.attention.wo, seq![hidden, hidden])
    &&& shaped(layer.attention.bo, seq![hidden])
    &&& shaped(layer.attention.ln_gamma, seq![hidden])
    &&& shaped(layer.attention.ln_beta, seq![hidden])
    &&& weight_shaped(layer.ffn.w_inter, seq![inter, hidden])
    &&& shaped(layer.ffn.b_inter, seq![inter])
    &&& weight_shaped(layer.ffn.w_out, seq![hidden, inter])
    &&& shaped(layer.ffn.b_out, seq![hidden])
    &&& shaped(layer.ffn.ln_gamma, seq![hidden])
    &&& shaped(layer.ffn.ln_beta, seq![hidden])
}

/// A BERT encoder whose weights have the shapes of its configuration can run, on
/// every sequence of known tokens and segments that is no longer than its positions.
pub proof fn lemma_bert_is_accepted<T>(model: BertModel<T>, ids: Seq<u32>, types: Option<&[u32]>)
    requires
        ({
            let c = model.config;
            let e = model.embeddings;
            let (h, n) = (c.hidden_size, c.max_position_embeddings);
            &&& 0 < h
            &&& 0 < c.num_attention_heads
            &&& h % c.num_attention_heads == 0
            &&& 0 < c.intermediate_size
            &&& 0 < c.type_vocab_size
            &&& shaped(e.word, seq![c.vocab_size, h])
            &&& shaped(e.position, seq![n, h])
            &&& shaped(e.token_type, seq![c.type_vocab_size, h])
            &&& shaped(e.ln_gamma, seq![h])
            &&& shaped(e.ln_beta, seq![h])
            &&& forall|i: int|
                0 <= i < model.layers@.len() ==> bert_layer_shaped(
                    #[trigger] model.layers@[i],
                    h,
                    c.intermediate_size,
                )
            &&& 0 < ids.len() <= n
            &&& n <= u32::MAX
            &&& forall|i: int| 0 <= i < ids.len() ==> #[trigger] ids[i] < c.vocab_size
            &&& types matches Some(s) ==> s@.len() == ids.len() && forall|i: int|
                0 <= i < s@.len() ==> #[trigger] s@[i] < c.type_vocab_size
            &&& ids.len() * ids.len() <= usize::MAX
            &&& ids.len() * h <= usize::MAX
            &&& ids.len() * c.intermediate_size <= usize::MAX
        }),
    ensures
        crate::models::bert::forward::model_fits(model),
        crate::models::bert::forward::input_fits(model, ids, types),
{
    let c = model.config;
    assert forall|i: int| 0 <= i < model.layers@.len() implies {
        &&& crate::models::bert::forward::layer_fits(#[trigger] model.layers@[i], c.hidden_size)
        &&& model.layers@[i].ffn.b_inter.dims()[0] == c.intermediate_size
    } by {
        assert(bert_layer_shaped(model.layers@[i], c.hidden_size, c.intermediate_size));
    }
}

/// A feed-forward block of T5 with these sizes.
pub open spec fn t5_ffn_shaped<T>(ffn: T5Ffn<T>, d: usize, inner: usize, gated: bool) -> bool {
    &&& shaped(ffn.wi_w, seq![inner, d])
    &&& gated ==> ffn.wi_gate_w is Some && shaped(ffn.wi_gate_w->0, seq![inner, d])
    &&& shaped(ffn.wo_w, seq![d, inner])
}

/// An encoder block of T5 with these sizes.
pub open spec fn t5_encoder_layer_shaped<T>(
    layer: T5EncoderLayer<T>,
    d: usize,
    width: usize,
    inner: usize,
    gated: bool,
) -> bool {
    let s = layer.self_attn;
    &&& shaped(s.q_w, seq![width, d])
    &&& shaped(s.k_w, seq![width, d])
    &&& shaped(s.v_w, seq![width, d])
    &&& shaped(s.o_w, seq![d, width])
    &&& shaped(layer.self_attn_ln, seq![d])
    &&& t5_ffn_shaped(layer.ffn, d, inner, gated)
    &&& shaped(layer.ffn_ln, seq![d])
}

/// A decoder block of T5 with these sizes.
pub open spec fn t5_decoder_layer_shaped<T>(
    layer: T5DecoderLayer<T>,
    d: usize,
    width: usize,
    inner: usize,
    gated: bool,
) -> bool {
    let (s, c) = (layer.self_attn, layer.cross_attn);
    &&& shaped(s.q_w, seq![width, d])
    &&& shaped(s.k_w, seq![width, d])
    &&& shaped(s.v_w, seq![width, d])
    &&& shaped(s.o_w, seq![d, width])
    &&& shaped(layer.self_attn_ln, seq![d])
    &&& shaped(c.q_w, seq![width, d])
    &&& shaped(c.k_w, seq![width, d])
    &&& shaped(c.v_w, seq![width, d])
    &&& shaped(c.o_w, seq![d, width])
    &&& shaped(layer.cross_attn_ln, seq![d])
    &&& t5_ffn_shaped(layer.ffn, d, inner, gated)
    &&& shaped(layer.ffn_ln, seq![d])
}

/// A T5 model whose weights have the shapes of its configuration can run: the
/// encoder on every sequence of known tokens, and the decoder on every one for
/// anything that the encoder gave, where no position biases are stored.
pub proof fn lemma_t5_is_accepted<
    T: Copy + Default + PartialOrd + Add<Output = T> + Mul<Output = T>,
    D: Fn(usize, usize, usize, usize) -> usize,
>(
    model: T5Model<T>,
    ids: Seq<u32>,
    decoder_ids: Seq<u32>,
    encoder_out: Tensor<T>,
    width: usize,
    step: D,
)
    requires
        ({
            let c = model.config;
            let (d, v) = (c.d_model, c.vocab_size);
            &&& 0 < d
            &&& 0 < c.num_heads
            &&& width == c.num_heads * c.d_kv
            &&& shaped(model.shared_emb, seq![v, d])
            &&& shaped(model.encoder_final_ln, seq![d])
            &&& shaped(model.decoder_final_ln, seq![d])
            &&& shaped(model.lm_head, seq![v, d])
            &&& forall|i: int|
                0 <= i < model.encoder_layers@.len() ==> t5_encoder_layer_shaped(
                    #[trigger] model.encoder_layers@[i],
                    d,
                    width,
                    c.d_ff,
                    c.is_gated_act,
                ) && model.encoder_layers@[i].self_attn.rel_bias is None
            &&& forall|i: int|
                0 <= i < model.decoder_layers@.len() ==> t5_decoder_layer_shaped(
                    #[trigger] model.decoder_layers@[i],
                    d,
                    width,
                    c.d_ff,
                    c.is_gated_act,
                ) && model.decoder_layers@[i].self_attn.rel_bias is None
            &&& 0 < ids.len() <= usize::MAX
            &&& shaped(encoder_out, seq![ids.len() as usize, d])
            &&& 0 < decoder_ids.len()
            &&& forall|i: int| 0 <= i < ids.len() ==> #[trigger] ids[i] < v
            &&& forall|i: int| 0 <= i < decoder_ids.len() ==> #[trigger] decoder_ids[i] < v
            &&& ids.len() * d <= usize::MAX
            &&& ids.len() * width <= usize::MAX
            &&& ids.len() * c.d_ff <= usize::MAX
            &&& decoder_ids.len() * d <= usize::MAX
            &&& decoder_ids.len() * width <= usize::MAX
            &&& decoder_ids.len() * c.d_ff <= usize::MAX
            &&& decoder_ids.len() * v <= usize::MAX
        }),
    ensures
        crate::models::t5::forward::model_fits(model),
        crate::models::t5::forward::encoder_accepts(model, ids, step),
        model.can_run(decoder_ids, &encoder_out, &step),
{
    let c = model.config;
    let (d, heads, kv) = (c.d_model, c.num_heads as int, c.d_kv as int);
    vstd::arithmetic::div_mod::lemma_mod_multiples_basic(kv, heads);
    assert(kv * heads == heads * kv) by (nonlinear_arith);
    assert(width % c.num_heads == 0);
    assert forall|i: int| 0 <= i < model.encoder_layers@.len() implies {
        &&& crate::models::t5::forward::encoder_layer_fits(#[trigger] model.encoder_layers@[i], d, c)
        &&& crate::models::t5::forward::length_fits_encoder_layer(
            model.encoder_layers@[i],
            ids.len(),
        )
    } by {
        assert(t5_encoder_layer_shaped(
            model.encoder_layers@[i],
            d,
            width,
            c.d_ff,
            c.is_gated_act,
        ));
    }
    assert forall|i: int| 0 <= i < model.decoder_layers@.len() implies {
        &&& crate::models::t5::forward::decoder_layer_fits(#[trigger] model.decoder_layers@[i], d, c)
        &&& crate::models::t5::forward::length_fits_decoder_layer(
            model.decoder_layers@[i],
            decoder_ids.len(),
            ids.len(),
        )
    } by {
        assert(t5_decoder_layer_shaped(
            model.decoder_layers@[i],
            d,
            width,
            c.d_ff,
            c.is_gated_act,
        ));
    }
}

} // verus!
