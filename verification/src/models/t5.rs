//! T5 encoder-decoder weights, relative positions and greedy generation.
//!
//! Supports `t5-small`, `t5-base`, `t5-large`, `google/flan-t5-*`, and other
//! models that follow the HuggingFace `T5ForConditionalGeneration` weight layout.
//!
//! Key differences from BERT / GPT-2:
//! - **RMSNorm** instead of LayerNorm (no bias, no mean subtraction).
//! - **Relative position biases** instead of absolute position embeddings.
//! - **No bias** on any linear projection.
//! - **Encoder + decoder** (seq2seq). The decoder uses causal self-attention
//!   plus cross-attention to encoder output.
//! - **Gated FFN** (T5v1.1 / Flan-T5): `gelu(W0 x) * W1 x` before the
//!   output projection. Set `is_gated_act = true` for these models.

pub mod file;
pub mod forward;
pub mod meaning;
pub mod settings;

use vstd::prelude::*;
use crate::config::{
    bool_field, is_norm_eps, or_default, read_bool_field, read_norm_eps, read_usize_field,
    read_usize_field_with_default, usize_field,
};
use crate::error::{Error, Result};
use crate::header::EntryView;
use crate::loader::{ModelFile, is_loaded, load_error};
use crate::models::plan::{
    LoadCheck, LoadStep, check_optional, check_tensor, is_loaded_if_present, join, join_numbered,
    load_if_present, no_step, numbered, optional_step, tensor_step,
};
use crate::num::{lemma_row_bounds, lemma_row_of_index};
use crate::tensor::{Tensor, lemma_product_3};
use crate::text::chars_of;

verus! {

/// Architectural hyperparameters for a T5 model.
#[derive(Debug, Clone, Copy)]
pub struct T5Config<T> {
    /// Model embedding dimension (`d_model`). 512 for T5-small.
    pub d_model: usize,
    /// Feed-forward inner dimension (`d_ff`). 2048 for T5-small.
    pub d_ff: usize,
    /// Head dimension (`d_kv`). 64 for T5-small.
    pub d_kv: usize,
    /// Number of attention heads. 8 for T5-small.
    pub num_heads: usize,
    /// Number of encoder layers. 6 for T5-small.
    pub num_encoder_layers: usize,
    /// Number of decoder layers. 6 for T5-small.
    pub num_decoder_layers: usize,
    /// Vocabulary size. 32128 for T5.
    pub vocab_size: usize,
    /// Number of relative attention buckets (default 32).
    pub relative_attention_num_buckets: usize,
    /// Maximum relative distance for bucketing (default 128).
    pub relative_attention_max_distance: usize,
    /// RMSNorm epsilon.
    pub layer_norm_eps: T,
    /// Use gated GELU FFN (true for T5v1.1 and Flan-T5, false for plain T5).
    pub is_gated_act: bool,
}

/// Why a `config.json` describes no T5 model, if it does not.
pub open spec fn t5_config_error(json: Seq<char>) -> Option<Error> {
    if usize_field(json, "d_model"@) is None {
        Some(Error::InvalidInput("config.json: missing d_model"))
    } else if usize_field(json, "vocab_size"@) is None {
        Some(Error::InvalidInput("config.json: missing vocab_size"))
    } else {
        None
    }
}

/// Four times the embedding dimension, which stands in for a missing inner
/// dimension, is a `usize`.
pub open spec fn t5_default_fits(json: Seq<char>) -> bool {
    usize_field(json, "d_model"@) matches Some(d_model) ==> 4 * d_model <= usize::MAX
}

/// Whether a `config.json` can be parsed: four times its embedding dimension is
/// a `usize`.
pub fn check_t5_default(json: &str) -> (res: bool)
    ensures
        res == t5_default_fits(json@),
{
    match read_usize_field(chars_of(json).as_slice(), "d_model") {
        Some(d_model) => d_model.checked_mul(4).is_some(),
        None => true,
    }
}

/// The configuration is the one that a `config.json` describes.
pub open spec fn is_t5_config<T, P: Fn(&str) -> Option<T>>(
    config: T5Config<T>,
    json: Seq<char>,
    parse: P,
    default_eps: T,
) -> bool {
    let num_layers = or_default(usize_field(json, "num_layers"@), 6);
    &&& usize_field(json, "d_model"@) == Some(config.d_model)
    &&& config.d_ff == or_default(usize_field(json, "d_ff"@), (4 * config.d_model) as usize)
    &&& config.d_kv == or_default(usize_field(json, "d_kv"@), 64)
    &&& config.num_heads == or_default(
        usize_field(json, "num_heads"@),
        (config.d_model / 64) as usize,
    )
    &&& config.num_encoder_layers == or_default(
        usize_field(json, "num_encoder_layers"@),
        num_layers,
    )
    &&& config.num_decoder_layers == or_default(
        usize_field(json, "num_decoder_layers"@),
        num_layers,
    )
    &&& usize_field(json, "vocab_size"@) == Some(config.vocab_size)
    &&& config.relative_attention_num_buckets == or_default(
        usize_field(json, "relative_attention_num_buckets"@),
        32,
    )
    &&& config.relative_attention_max_distance == or_default(
        usize_field(json, "relative_attention_max_distance"@),
        128,
    )
    &&& is_norm_eps(json, parse, default_eps, config.layer_norm_eps)
    &&& config.is_gated_act == or_default(bool_field(json, "is_gated_act"@), false)
}

impl<T> T5Config<T> {
    /// Config for `t5-small`.
    pub fn t5_small(layer_norm_eps: T) -> (res: Self)
        ensures
            res == (T5Config {
                d_model: 512,
                d_ff: 2048,
                d_kv: 64,
                num_heads: 8,
                num_encoder_layers: 6,
                num_decoder_layers: 6,
                vocab_size: 32128,
                relative_attention_num_buckets: 32,
                relative_attention_max_distance: 128,
                layer_norm_eps,
                is_gated_act: false,
            }),
            res.d_ff == 4 * res.d_model,
            res.d_model == res.num_heads * res.d_kv,
            res.num_encoder_layers == res.num_decoder_layers,
            res.relative_attention_max_distance == 4 * res.relative_attention_num_buckets,
    {
        T5Config {
            d_model: 512,
            d_ff: 2048,
            d_kv: 64,
            num_heads: 8,
            num_encoder_layers: 6,
            num_decoder_layers: 6,
            vocab_size: 32128,
            relative_attention_num_buckets: 32,
            relative_attention_max_distance: 128,
            layer_norm_eps,
            is_gated_act: false,
        }
    }

    /// Config for `t5-base`.
    pub fn t5_base(layer_norm_eps: T) -> (res: Self)
        ensures
            res == (T5Config {
                d_model: 768,
                d_ff: 3072,
                d_kv: 64,
                num_heads: 12,
                num_encoder_layers: 12,
                num_decoder_layers: 12,
                vocab_size: 32128,
                relative_attention_num_buckets: 32,
                relative_attention_max_distance: 128,
                layer_norm_eps,
                is_gated_act: false,
            }),
            res.d_ff == 4 * res.d_model,
            res.d_model == res.num_heads * res.d_kv,
            res.num_encoder_layers == res.num_decoder_layers,
            res.relative_attention_max_distance == 4 * res.relative_attention_num_buckets,
    {
        T5Config {
            d_model: 768,
            d_ff: 3072,
            d_kv: 64,
            num_heads: 12,
            num_encoder_layers: 12,
            num_decoder_layers: 12,
            vocab_size: 32128,
            relative_attention_num_buckets: 32,
            relative_attention_max_distance: 128,
            layer_norm_eps,
            is_gated_act: false,
        }
    }

    /// Config for `google/flan-t5-small`.
    pub fn flan_t5_small(layer_norm_eps: T) -> (res: Self)
        ensures
            res == (T5Config {
                d_model: 512,
                d_ff: 1024,
                d_kv: 64,
                num_heads: 6,
                num_encoder_layers: 8,
                num_decoder_layers: 8,
                vocab_size: 32128,
                relative_attention_num_buckets: 32,
                relative_attention_max_distance: 128,
                layer_norm_eps,
                is_gated_act: true,
            }),
            res.d_ff == 2 * res.d_model,
            res.num_encoder_layers == res.num_decoder_layers,
            res.relative_attention_max_distance == 4 * res.relative_attention_num_buckets,
    {
        T5Config {
            d_model: 512,
            d_ff: 1024,
            d_kv: 64,
            num_heads: 6,
            num_encoder_layers: 8,
            num_decoder_layers: 8,
            vocab_size: 32128,
            relative_attention_num_buckets: 32,
            relative_attention_max_distance: 128,
            layer_norm_eps,
            is_gated_act: true,
        }
    }

    /// Parses a HuggingFace `config.json` string for T5. `parse` turns a numeral
    /// into an epsilon; `default_eps` is the epsilon where the file gives none.
    pub fn from_config_json<P: Fn(&str) -> Option<T>>(
        json: &str,
        parse: &P,
        default_eps: T,
    ) -> (res: Result<Self>)
        requires
            forall|s: &str| #[trigger] call_requires(*parse, (s,)),
            t5_default_fits(json@),
        ensures
            match t5_config_error(json@) {
                Some(e) => res == Err::<Self, Error>(e),
                None => res matches Ok(config) && is_t5_config(config, json@, *parse, default_eps),
            },
    {
        let chars = chars_of(json);
        let text = chars.as_slice();
        let d_model: usize = match read_usize_field(text, "d_model") {
            Some(v) => v,
            None => {
                return Err(Error::InvalidInput("config.json: missing d_model"));
            },
        };
        let num_layers: usize = read_usize_field_with_default(text, "num_layers", 6);
        let d_ff: usize = read_usize_field_with_default(text, "d_ff", 4 * d_model);
        let d_kv: usize = read_usize_field_with_default(text, "d_kv", 64);
        let num_heads: usize = read_usize_field_with_default(text, "num_heads", d_model / 64);
        let num_encoder_layers: usize = read_usize_field_with_default(
            text,
            "num_encoder_layers",
            num_layers,
        );
        let num_decoder_layers: usize = read_usize_field_with_default(
            text,
            "num_decoder_layers",
            num_layers,
        );
        let vocab_size: usize = match read_usize_field(text, "vocab_size") {
            Some(v) => v,
            None => {
                return Err(Error::InvalidInput("config.json: missing vocab_size"));
            },
        };
        let relative_attention_num_buckets: usize = read_usize_field_with_default(
            text,
            "relative_attention_num_buckets",
            32,
        );
        let relative_attention_max_distance: usize = read_usize_field_with_default(
            text,
            "relative_attention_max_distance",
            128,
        );
        let layer_norm_eps = read_norm_eps(text, parse, default_eps);
        let is_gated_act = match read_bool_field(text, "is_gated_act") {
            Some(v) => v,
            None => false,
        };
        Ok(
            T5Config {
                d_model,
                d_ff,
                d_kv,
                num_heads,
                num_encoder_layers,
                num_decoder_layers,
                vocab_size,
                relative_attention_num_buckets,
                relative_attention_max_distance,
                layer_norm_eps,
                is_gated_act,
            },
        )
    }
}

// ---------------------------------------------------------------------------
// Weights
// ---------------------------------------------------------------------------

/// Self-attention projections.
pub struct T5SelfAttention<T> {
    /// `[inner_dim, d_model]`.
    pub q_w: Tensor<T>,
    pub k_w: Tensor<T>,
    pub v_w: Tensor<T>,
    /// `[d_model, inner_dim]`.
    pub o_w: Tensor<T>,
    /// Relative position bias, only present on the first layer:
    /// `[num_buckets, num_heads]`.
    pub rel_bias: Option<Tensor<T>>,
}

/// Cross-attention projections.
pub struct T5CrossAttention<T> {
    pub q_w: Tensor<T>,
    pub k_w: Tensor<T>,
    pub v_w: Tensor<T>,
    pub o_w: Tensor<T>,
}

/// Feed-forward weights.
pub struct T5Ffn<T> {
    /// `[d_ff, d_model]`; `wi_0` where gated.
    pub wi_w: Tensor<T>,
    /// `[d_ff, d_model]`; `wi_1` where gated.
    pub wi_gate_w: Option<Tensor<T>>,
    /// `[d_model, d_ff]`.
    pub wo_w: Tensor<T>,
}

/// One encoder block.
pub struct T5EncoderLayer<T> {
    pub self_attn: T5SelfAttention<T>,
    pub self_attn_ln: Tensor<T>,
    pub ffn: T5Ffn<T>,
    pub ffn_ln: Tensor<T>,
}

/// One decoder block.
pub struct T5DecoderLayer<T> {
    pub self_attn: T5SelfAttention<T>,
    pub self_attn_ln: Tensor<T>,
    pub cross_attn: T5CrossAttention<T>,
    pub cross_attn_ln: Tensor<T>,
    pub ffn: T5Ffn<T>,
    pub ffn_ln: Tensor<T>,
}

/// Full T5 encoder-decoder model.
///
/// Use [`T5Model::encode`] to get encoder representations, and
/// [`T5Model::generate_greedy`] for sequence-to-sequence generation.
pub struct T5Model<T> {
    /// Architectural configuration.
    pub config: T5Config<T>,
    /// `[vocab, d_model]`.
    pub shared_emb: Tensor<T>,
    pub encoder_layers: Vec<T5EncoderLayer<T>>,
    pub encoder_final_ln: Tensor<T>,
    pub decoder_layers: Vec<T5DecoderLayer<T>>,
    pub decoder_final_ln: Tensor<T>,
    /// `[vocab, d_model]`.
    pub lm_head: Tensor<T>,
    /// EOS / pad token id. T5 uses id 1 (`</s>`).
    pub eos_token_id: u32,
    /// Decoder start token id. T5 uses id 0 (`<pad>`).
    pub decoder_start_token_id: u32,
}

/// Loading the self-attention weights whose names start with `p`. The first
/// block looks for a relative position bias before anything else.
pub open spec fn self_attention_step(
    entries: Seq<EntryView>,
    p: Seq<char>,
    first: bool,
) -> LoadStep {
    (if first {
        optional_step(entries, p + "relative_attention_bias.weight"@)
    } else {
        no_step()
    }).followed_by(tensor_step(entries, p + "q.weight"@)).followed_by(
        tensor_step(entries, p + "k.weight"@),
    ).followed_by(tensor_step(entries, p + "v.weight"@)).followed_by(
        tensor_step(entries, p + "o.weight"@),
    )
}

/// The self-attention weights are those of the file.
pub open spec fn is_self_attention_loaded<T, F: Fn(u32) -> T>(
    attn: T5SelfAttention<T>,
    entries: Seq<EntryView>,
    bytes: Seq<u8>,
    p: Seq<char>,
    first: bool,
    decode: F,
) -> bool {
    &&& is_loaded(attn.q_w, entries, bytes, p + "q.weight"@, decode)
    &&& is_loaded(attn.k_w, entries, bytes, p + "k.weight"@, decode)
    &&& is_loaded(attn.v_w, entries, bytes, p + "v.weight"@, decode)
    &&& is_loaded(attn.o_w, entries, bytes, p + "o.weight"@, decode)
    &&& if first {
        is_loaded_if_present(
            attn.rel_bias,
            entries,
            bytes,
            p + "relative_attention_bias.weight"@,
            decode,
        )
    } else {
        attn.rel_bias is None
    }
}

/// Loads the self-attention weights whose names start with `p`.
fn load_self_attention<T, F: Fn(u32) -> T>(
    file: &ModelFile<'_>,
    p: &str,
    first: bool,
    decode: &F,
) -> (res: Result<T5SelfAttention<T>>)
    requires
        forall|word: u32| call_requires(*decode, (word,)),
        self_attention_step(file.entries(), p@, first).fits,
    ensures
        match self_attention_step(file.entries(), p@, first).error {
            Some(e) => res == Err::<T5SelfAttention<T>, Error>(e),
            None => res matches Ok(attn) && is_self_attention_loaded(
                attn,
                file.entries(),
                file.bytes(),
                p@,
                first,
                *decode,
            ),
        },
{
    let rel_bias = if first {
        load_if_present(file, join(p, "relative_attention_bias.weight").as_str(), decode)
    } else {
        None
    };
    let q_w = match file.load(join(p, "q.weight").as_str(), decode) {
        Ok(t) => t,
        Err(e) => {
            return Err(e);
        },
    };
    let k_w = match file.load(join(p, "k.weight").as_str(), decode) {
        Ok(t) => t,
        Err(e) => {
            return Err(e);
        },
    };
    let v_w = match file.load(join(p, "v.weight").as_str(), decode) {
        Ok(t) => t,
        Err(e) => {
            return Err(e);
        },
    };
    let o_w = match file.load(join(p, "o.weight").as_str(), decode) {
        Ok(t) => t,
        Err(e) => {
            return Err(e);
        },
    };
    Ok(T5SelfAttention { q_w, k_w, v_w, o_w, rel_bias })
}

/// Loading the cross-attention weights whose names start with `p`.
pub open spec fn cross_attention_step(entries: Seq<EntryView>, p: Seq<char>) -> LoadStep {
    tensor_step(entries, p + "q.weight"@).followed_by(
        tensor_step(entries, p + "k.weight"@),
    ).followed_by(
        tensor_step(entries, p + "v.weight"@),
    ).followed_by(
        tensor_step(entries, p + "o.weight"@),
    )
}

/// The cross-attention weights are those of the file.
pub open spec fn is_cross_attention_loaded<T, F: Fn(u32) -> T>(
    attn: T5CrossAttention<T>,
    entries: Seq<EntryView>,
    bytes: Seq<u8>,
    p: Seq<char>,
    decode: F,
) -> bool {
    &&& is_loaded(attn.q_w, entries, bytes, p + "q.weight"@, decode)
    &&& is_loaded(attn.k_w, entries, bytes, p + "k.weight"@, decode)
    &&& is_loaded(attn.v_w, entries, bytes, p + "v.weight"@, decode)
    &&& is_loaded(attn.o_w, entries, bytes, p + "o.weight"@, decode)
}

/// Loads the cross-attention weights whose names start with `p`.
fn load_cross_attention<T, F: Fn(u32) -> T>(file: &ModelFile<'_>, p: &str, decode: &F) -> (res: Result<
    T5CrossAttention<T>,
>)
    requires
        forall|word: u32| call_requires(*decode, (word,)),
        cross_attention_step(file.entries(), p@).fits,
    ensures
        match cross_attention_step(file.entries(), p@).error {
            Some(e) => res == Err::<T5CrossAttention<T>, Error>(e),
            None => res matches Ok(attn) && is_cross_attention_loaded(
                attn,
                file.entries(),
                file.bytes(),
                p@,
                *decode,
            ),
        },
{
    let q_w = match file.load(join(p, "q.weight").as_str(), decode) {
        Ok(t) => t,
        Err(e) => {
            return Err(e);
        },
    };
    let k_w = match file.load(join(p, "k.weight").as_str(), decode) {
        Ok(t) => t,
        Err(e) => {
            return Err(e);
        },
    };
    let v_w = match file.load(join(p, "v.weight").as_str(), decode) {
        Ok(t) => t,
        Err(e) => {
            return Err(e);
        },
    };
    let o_w = match file.load(join(p, "o.weight").as_str(), decode) {
        Ok(t) => t,
        Err(e) => {
            return Err(e);
        },
    };
    Ok(T5CrossAttention { q_w, k_w, v_w, o_w })
}

/// What the names of the feed-forward weights of a block go on with.
pub open spec fn ffn_name(gated: bool) -> Seq<char> {
    if gated {
        "DenseActDense."@
    } else {
        "DenseReluDense."@
    }
}

/// Loading the feed-forward weights whose names start with `p`.
pub open spec fn ffn_step(entries: Seq<EntryView>, p: Seq<char>, gated: bool) -> LoadStep {
    let f = p + ffn_name(gated);
    (if gated {
        tensor_step(entries, f + "wi_0.weight"@).followed_by(
            tensor_step(entries, f + "wi_1.weight"@),
        )
    } else {
        tensor_step(entries, f + "wi.weight"@)
    }).followed_by(tensor_step(entries, f + "wo.weight"@))
}

/// The feed-forward weights are those of the file.
pub open spec fn is_ffn_loaded<T, F: Fn(u32) -> T>(
    ffn: T5Ffn<T>,
    entries: Seq<EntryView>,
    bytes: Seq<u8>,
    p: Seq<char>,
    gated: bool,
    decode: F,
) -> bool {
    let f = p + ffn_name(gated);
    &&& if gated {
        &&& is_loaded(ffn.wi_w, entries, bytes, f + "wi_0.weight"@, decode)
        &&& ffn.wi_gate_w matches Some(gate) && is_loaded(
            gate,
            entries,
            bytes,
            f + "wi_1.weight"@,
            decode,
        )
    } else {
        &&& is_loaded(ffn.wi_w, entries, bytes, f + "wi.weight"@, decode)
        &&& ffn.wi_gate_w is None
    }
    &&& is_loaded(ffn.wo_w, entries, bytes, f + "wo.weight"@, decode)
}

/// Loads the feed-forward weights whose names start with `p`.
fn load_ffn<T, F: Fn(u32) -> T>(file: &ModelFile<'_>, p: &str, gated: bool, decode: &F) -> (res:
    Result<T5Ffn<T>>)
    requires
        forall|word: u32| call_requires(*decode, (word,)),
        ffn_step(file.entries(), p@, gated).fits,
    ensures
        match ffn_step(file.entries(), p@, gated).error {
            Some(e) => res == Err::<T5Ffn<T>, Error>(e),
            None => res matches Ok(ffn) && is_ffn_loaded(
                ffn,
                file.entries(),
                file.bytes(),
                p@,
                gated,
                *decode,
            ),
        },
{
    let name: &str = if gated {
        "DenseActDense."
    } else {
        "DenseReluDense."
    };
    let f = join(p, name);
    let (wi_w, wi_gate_w) = if gated {
        let wi_0 = match file.load(join(f.as_str(), "wi_0.weight").as_str(), decode) {
            Ok(t) => t,
            Err(e) => {
                return Err(e);
            },
        };
        let wi_1 = match file.load(join(f.as_str(), "wi_1.weight").as_str(), decode) {
            Ok(t) => t,
            Err(e) => {
                return Err(e);
            },
        };
        (wi_0, Some(wi_1))
    } else {
        let wi = match file.load(join(f.as_str(), "wi.weight").as_str(), decode) {
            Ok(t) => t,
            Err(e) => {
                return Err(e);
            },
        };
        (wi, None)
    };
    let wo_w = match file.load(join(f.as_str(), "wo.weight").as_str(), decode) {
        Ok(t) => t,
        Err(e) => {
            return Err(e);
        },
    };
    Ok(T5Ffn { wi_w, wi_gate_w, wo_w })
}

/// Loading the encoder block whose names start with `p`.
pub open spec fn encoder_layer_step(
    entries: Seq<EntryView>,
    p: Seq<char>,
    first: bool,
    gated: bool,
) -> LoadStep {
    self_attention_step(entries, p + "layer.0.SelfAttention."@, first).followed_by(
        tensor_step(entries, p + "layer.0.layer_norm.weight"@),
    ).followed_by(
        ffn_step(entries, p + "layer.1."@, gated),
    ).followed_by(
        tensor_step(entries, p + "layer.1.layer_norm.weight"@),
    )
}

/// Every weight of the encoder block is that of the file.
pub open spec fn is_encoder_layer_loaded<T, F: Fn(u32) -> T>(
    layer: T5EncoderLayer<T>,
    entries: Seq<EntryView>,
    bytes: Seq<u8>,
    p: Seq<char>,
    first: bool,
    gated: bool,
    decode: F,
) -> bool {
    &&& is_self_attention_loaded(layer.self_attn, entries, bytes, p + "layer.0.SelfAttention."@, first, decode)
    &&& is_loaded(layer.self_attn_ln, entries, bytes, p + "layer.0.layer_norm.weight"@, decode)
    &&& is_ffn_loaded(layer.ffn, entries, bytes, p + "layer.1."@, gated, decode)
    &&& is_loaded(layer.ffn_ln, entries, bytes, p + "layer.1.layer_norm.weight"@, decode)
}

/// Loads the encoder block whose names start with `p`.
fn load_encoder_layer<T, F: Fn(u32) -> T>(
    file: &ModelFile<'_>,
    p: &str,
    first: bool,
    gated: bool,
    decode: &F,
) -> (res: Result<T5EncoderLayer<T>>)
    requires
        forall|word: u32| call_requires(*decode, (word,)),
        encoder_layer_step(file.entries(), p@, first, gated).fits,
    ensures
        match encoder_layer_step(file.entries(), p@, first, gated).error {
            Some(e) => res == Err::<T5EncoderLayer<T>, Error>(e),
            None => res matches Ok(layer) && is_encoder_layer_loaded(
                layer,
                file.entries(),
                file.bytes(),
                p@,
                first,
                gated,
                *decode,
            ),
        },
{
    let self_attn = match load_self_attention(file, join(p, "layer.0.SelfAttention.").as_str(), first, decode) {
        Ok(t) => t,
        Err(e) => {
            return Err(e);
        },
    };
    let self_attn_ln = match file.load(join(p, "layer.0.layer_norm.weight").as_str(), decode) {
        Ok(t) => t,
        Err(e) => {
            return Err(e);
        },
    };
    let ffn = match load_ffn(file, join(p, "layer.1.").as_str(), gated, decode) {
        Ok(t) => t,
        Err(e) => {
            return Err(e);
        },
    };
    let ffn_ln = match file.load(join(p, "layer.1.layer_norm.weight").as_str(), decode) {
        Ok(t) => t,
        Err(e) => {
            return Err(e);
        },
    };
    Ok(T5EncoderLayer { self_attn, self_attn_ln, ffn, ffn_ln })
}

/// What the names of the tensors of an encoder block start with.
pub open spec fn encoder_prefix(i: nat) -> Seq<char> {
    numbered("encoder.block."@, i, "."@)
}

/// Loading the first `n` encoder blocks.
pub open spec fn encoder_step(entries: Seq<EntryView>, n: nat, gated: bool) -> LoadStep
    decreases n,
{
    if n == 0 {
        no_step()
    } else {
        encoder_step(entries, (n - 1) as nat, gated).followed_by(
            encoder_layer_step(entries, encoder_prefix((n - 1) as nat), n == 1, gated),
        )
    }
}

/// Every weight of the encoder is that of the file.
pub open spec fn is_encoder_loaded<T, F: Fn(u32) -> T>(
    layers: Seq<T5EncoderLayer<T>>,
    entries: Seq<EntryView>,
    bytes: Seq<u8>,
    gated: bool,
    decode: F,
) -> bool {
    forall|i: int|
        0 <= i < layers.len() ==> is_encoder_layer_loaded(
            #[trigger] layers[i],
            entries,
            bytes,
            encoder_prefix(i as nat),
            i == 0,
            gated,
            decode,
        )
}

/// A load that fails does so however many blocks follow.
proof fn lemma_encoder_step(entries: Seq<EntryView>, k: nat, n: nat, gated: bool)
    requires
        k <= n,
    ensures
        encoder_step(entries, k, gated).error is Some ==> encoder_step(entries, n, gated).error
            == encoder_step(entries, k, gated).error,
        encoder_step(entries, n, gated).fits ==> encoder_step(entries, k, gated).fits,
    decreases n,
{
    if k < n {
        lemma_encoder_step(entries, k, (n - 1) as nat, gated);
    }
}

/// Loads the first `n` encoder blocks.
fn load_encoder<T, F: Fn(u32) -> T>(file: &ModelFile<'_>, n: usize, gated: bool, decode: &F) -> (res:
    Result<Vec<T5EncoderLayer<T>>>)
    requires
        forall|word: u32| call_requires(*decode, (word,)),
        encoder_step(file.entries(), n as nat, gated).fits,
    ensures
        match encoder_step(file.entries(), n as nat, gated).error {
            Some(e) => res == Err::<Vec<T5EncoderLayer<T>>, Error>(e),
            None => res matches Ok(layers) && layers@.len() == n && is_encoder_loaded(
                layers@,
                file.entries(),
                file.bytes(),
                gated,
                *decode,
            ),
        },
{
    let mut layers: Vec<T5EncoderLayer<T>> = Vec::new();
    let mut i: usize = 0;
    while i < n
        invariant
            i <= n,
            forall|word: u32| call_requires(*decode, (word,)),
            encoder_step(file.entries(), n as nat, gated).fits,
            encoder_step(file.entries(), i as nat, gated).error is None,
            layers@.len() == i,
            is_encoder_loaded(layers@, file.entries(), file.bytes(), gated, *decode),
        decreases n - i,
    {
        proof {
            lemma_encoder_step(file.entries(), (i + 1) as nat, n as nat, gated);
        }
        let p = join_numbered("encoder.block.", i, ".");
        match load_encoder_layer(file, p.as_str(), i == 0, gated, decode) {
            Ok(layer) => {
                layers.push(layer);
            },
            Err(e) => {
                return Err(e);
            },
        }
        i = i + 1;
    }
    Ok(layers)
}

/// Loading the decoder block whose names start with `p`.
pub open spec fn decoder_layer_step(
    entries: Seq<EntryView>,
    p: Seq<char>,
    first: bool,
    gated: bool,
) -> LoadStep {
    self_attention_step(entries, p + "layer.0.SelfAttention."@, first).followed_by(
        tensor_step(entries, p + "layer.0.layer_norm.weight"@),
    ).followed_by(
        cross_attention_step(entries, p + "layer.1.EncDecAttention."@),
    ).followed_by(
        tensor_step(entries, p + "layer.1.layer_norm.weight"@),
    ).followed_by(
        ffn_step(entries, p + "layer.2."@, gated),
    ).followed_by(
        tensor_step(entries, p + "layer.2.layer_norm.weight"@),
    )
}

/// Every weight of the decoder block is that of the file.
pub open spec fn is_decoder_layer_loaded<T, F: Fn(u32) -> T>(
    layer: T5DecoderLayer<T>,
    entries: Seq<EntryView>,
    bytes: Seq<u8>,
    p: Seq<char>,
    first: bool,
    gated: bool,
    decode: F,
) -> bool {
    &&& is_self_attention_loaded(layer.self_attn, entries, bytes, p + "layer.0.SelfAttention."@, first, decode)
    &&& is_loaded(layer.self_attn_ln, entries, bytes, p + "layer.0.layer_norm.weight"@, decode)
    &&& is_cross_attention_loaded(layer.cross_attn, entries, bytes, p + "layer.1.EncDecAttention."@, decode)
    &&& is_loaded(layer.cross_attn_ln, entries, bytes, p + "layer.1.layer_norm.weight"@, decode)
    &&& is_ffn_loaded(layer.ffn, entries, bytes, p + "layer.2."@, gated, decode)
    &&& is_loaded(layer.ffn_ln, entries, bytes, p + "layer.2.layer_norm.weight"@, decode)
}

/// Loads the decoder block whose names start with `p`.
fn load_decoder_layer<T, F: Fn(u32) -> T>(
    file: &ModelFile<'_>,
    p: &str,
    first: bool,
    gated: bool,
    decode: &F,
) -> (res: Result<T5DecoderLayer<T>>)
    requires
        forall|word: u32| call_requires(*decode, (word,)),
        decoder_layer_step(file.entries(), p@, first, gated).fits,
    ensures
        match decoder_layer_step(file.entries(), p@, first, gated).error {
            Some(e) => res == Err::<T5DecoderLayer<T>, Error>(e),
            None => res matches Ok(layer) && is_decoder_layer_loaded(
                layer,
                file.entries(),
                file.bytes(),
                p@,
                first,
                gated,
                *decode,
            ),
        },
{
    let self_attn = match load_self_attention(file, join(p, "layer.0.SelfAttention.").as_str(), first, decode) {
        Ok(t) => t,
        Err(e) => {
            return Err(e);
        },
    };
    let self_attn_ln = match file.load(join(p, "layer.0.layer_norm.weight").as_str(), decode) {
        Ok(t) => t,
        Err(e) => {
            return Err(e);
        },
    };
    let cross_attn = match load_cross_attention(file, join(p, "layer.1.EncDecAttention.").as_str(), decode) {
        Ok(t) => t,
        Err(e) => {
            return Err(e);
        },
    };
    let cross_attn_ln = match file.load(join(p, "layer.1.layer_norm.weight").as_str(), decode) {
        Ok(t) => t,
        Err(e) => {
            return Err(e);
        },
    };
    let ffn = match load_ffn(file, join(p, "layer.2.").as_str(), gated, decode) {
        Ok(t) => t,
        Err(e) => {
            return Err(e);
        },
    };
    let ffn_ln = match file.load(join(p, "layer.2.layer_norm.weight").as_str(), decode) {
        Ok(t) => t,
        Err(e) => {
            return Err(e);
        },
    };
    Ok(T5DecoderLayer { self_attn, self_attn_ln, cross_attn, cross_attn_ln, ffn, ffn_ln })
}

/// What the names of the tensors of a decoder block start with.
pub open spec fn decoder_prefix(i: nat) -> Seq<char> {
    numbered("decoder.block."@, i, "."@)
}

/// Loading the first `n` decoder blocks.
pub open spec fn decoder_step(entries: Seq<EntryView>, n: nat, gated: bool) -> LoadStep
    decreases n,
{
    if n == 0 {
        no_step()
    } else {
        decoder_step(entries, (n - 1) as nat, gated).followed_by(
            decoder_layer_step(entries, decoder_prefix((n - 1) as nat), n == 1, gated),
        )
    }
}

/// Every weight of the decoder is that of the file.
pub open spec fn is_decoder_loaded<T, F: Fn(u32) -> T>(
    layers: Seq<T5DecoderLayer<T>>,
    entries: Seq<EntryView>,
    bytes: Seq<u8>,
    gated: bool,
    decode: F,
) -> bool {
    forall|i: int|
        0 <= i < layers.len() ==> is_decoder_layer_loaded(
            #[trigger] layers[i],
            entries,
            bytes,
            decoder_prefix(i as nat),
            i == 0,
            gated,
            decode,
        )
}

/// A load that fails does so however many blocks follow.
proof fn lemma_decoder_step(entries: Seq<EntryView>, k: nat, n: nat, gated: bool)
    requires
        k <= n,
    ensures
        decoder_step(entries, k, gated).error is Some ==> decoder_step(entries, n, gated).error
            == decoder_step(entries, k, gated).error,
        decoder_step(entries, n, gated).fits ==> decoder_step(entries, k, gated).fits,
    decreases n,
{
    if k < n {
        lemma_decoder_step(entries, k, (n - 1) as nat, gated);
    }
}

/// Loads the first `n` decoder blocks.
fn load_decoder<T, F: Fn(u32) -> T>(file: &ModelFile<'_>, n: usize, gated: bool, decode: &F) -> (res:
    Result<Vec<T5DecoderLayer<T>>>)
    requires
        forall|word: u32| call_requires(*decode, (word,)),
        decoder_step(file.entries(), n as nat, gated).fits,
    ensures
        match decoder_step(file.entries(), n as nat, gated).error {
            Some(e) => res == Err::<Vec<T5DecoderLayer<T>>, Error>(e),
            None => res matches Ok(layers) && layers@.len() == n && is_decoder_loaded(
                layers@,
                file.entries(),
                file.bytes(),
                gated,
                *decode,
            ),
        },
{
    let mut layers: Vec<T5DecoderLayer<T>> = Vec::new();
    let mut i: usize = 0;
    while i < n
        invariant
            i <= n,
            forall|word: u32| call_requires(*decode, (word,)),
            decoder_step(file.entries(), n as nat, gated).fits,
            decoder_step(file.entries(), i as nat, gated).error is None,
            layers@.len() == i,
            is_decoder_loaded(layers@, file.entries(), file.bytes(), gated, *decode),
        decreases n - i,
    {
        proof {
            lemma_decoder_step(file.entries(), (i + 1) as nat, n as nat, gated);
        }
        let p = join_numbered("decoder.block.", i, ".");
        match load_decoder_layer(file, p.as_str(), i == 0, gated, decode) {
            Ok(layer) => {
                layers.push(layer);
            },
            Err(e) => {
                return Err(e);
            },
        }
        i = i + 1;
    }
    Ok(layers)
}

/// Loading a model with the given numbers of blocks.
pub open spec fn plan_step(
    entries: Seq<EntryView>,
    encoder_layers: nat,
    decoder_layers: nat,
    gated: bool,
) -> LoadStep {
    encoder_step(entries, encoder_layers, gated).followed_by(
        decoder_step(entries, decoder_layers, gated),
    ).followed_by(tensor_step(entries, "shared.weight"@)).followed_by(
        optional_step(entries, "lm_head.weight"@),
    ).followed_by(tensor_step(entries, "encoder.final_layer_norm.weight"@)).followed_by(
        tensor_step(entries, "decoder.final_layer_norm.weight"@),
    )
}

/// Loading a model of the given configuration.
pub open spec fn model_step<T>(entries: Seq<EntryView>, config: T5Config<T>) -> LoadStep {
    plan_step(
        entries,
        config.num_encoder_layers as nat,
        config.num_decoder_layers as nat,
        config.is_gated_act,
    )
}

/// Every weight of the model is the tensor of the file that belongs there. The
/// output projection is the shared embedding where the file holds none.
pub open spec fn is_model_loaded<T, F: Fn(u32) -> T>(
    model: T5Model<T>,
    entries: Seq<EntryView>,
    bytes: Seq<u8>,
    decode: F,
) -> bool {
    let config = model.config;
    &&& model.encoder_layers@.len() == config.num_encoder_layers
    &&& is_encoder_loaded(
        model.encoder_layers@,
        entries,
        bytes,
        config.is_gated_act,
        decode,
    )
    &&& model.decoder_layers@.len() == config.num_decoder_layers
    &&& is_decoder_loaded(
        model.decoder_layers@,
        entries,
        bytes,
        config.is_gated_act,
        decode,
    )
    &&& is_loaded(model.shared_emb, entries, bytes, "shared.weight"@, decode)
    &&& if load_error(entries, "lm_head.weight"@) is None {
        is_loaded(model.lm_head, entries, bytes, "lm_head.weight"@, decode)
    } else {
        model.lm_head.dims() == model.shared_emb.dims() && model.lm_head.elems()
            == model.shared_emb.elems() && model.lm_head.wf()
    }
    &&& is_loaded(
        model.encoder_final_ln,
        entries,
        bytes,
        "encoder.final_layer_norm.weight"@,
        decode,
    )
    &&& is_loaded(
        model.decoder_final_ln,
        entries,
        bytes,
        "decoder.final_layer_norm.weight"@,
        decode,
    )
    &&& model.eos_token_id == 1
    &&& model.decoder_start_token_id == 0
}

impl<T: Copy> T5Model<T> {
    /// Loads a T5 model from a parsed safetensors file. `decode` turns the bit
    /// pattern of an element into the element.
    ///
    /// Tensor names follow `T5ForConditionalGeneration` layout.
    pub fn from_safetensors<F: Fn(u32) -> T>(
        file: &ModelFile<'_>,
        config: T5Config<T>,
        decode: &F,
    ) -> (res: Result<Self>)
        requires
            forall|word: u32| call_requires(*decode, (word,)),
            model_step(file.entries(), config).fits,
        ensures
            match model_step(file.entries(), config).error {
                Some(e) => res == Err::<Self, Error>(e),
                None => res matches Ok(model) && model.config == config && is_model_loaded(
                    model,
                    file.entries(),
                    file.bytes(),
                    *decode,
                ),
            },
    {
        let gated = config.is_gated_act;
        let encoder_layers = match load_encoder(file, config.num_encoder_layers, gated, decode) {
            Ok(t) => t,
            Err(e) => {
                return Err(e);
            },
        };
        let decoder_layers = match load_decoder(file, config.num_decoder_layers, gated, decode) {
            Ok(t) => t,
            Err(e) => {
                return Err(e);
            },
        };
        let shared_emb = match file.load("shared.weight", decode) {
            Ok(t) => t,
            Err(e) => {
                return Err(e);
            },
        };
        let lm_head = match load_if_present(file, "lm_head.weight", decode) {
            Some(tensor) => tensor,
            None => shared_emb.clone(),
        };
        let encoder_final_ln = match file.load("encoder.final_layer_norm.weight", decode) {
            Ok(t) => t,
            Err(e) => {
                return Err(e);
            },
        };
        let decoder_final_ln = match file.load("decoder.final_layer_norm.weight", decode) {
            Ok(t) => t,
            Err(e) => {
                return Err(e);
            },
        };
        Ok(
            T5Model {
                config,
                shared_emb,
                encoder_layers,
                encoder_final_ln,
                decoder_layers,
                decoder_final_ln,
                lm_head,
                eos_token_id: 1,
                decoder_start_token_id: 0,
            },
        )
    }
}

// ---------------------------------------------------------------------------
// Checking before loading
// ---------------------------------------------------------------------------

/// How loading self-attention weights would go.
fn check_self_attention(file: &ModelFile<'_>, p: &str, first: bool) -> (res: LoadCheck)
    ensures
        res.shows(self_attention_step(file.entries(), p@, first)),
{
    let bias = if first {
        check_optional(file, join(p, "relative_attention_bias.weight").as_str())
    } else {
        LoadCheck::nothing()
    };
    bias.followed_by(
        check_tensor(file, join(p, "q.weight").as_str()),
    ).followed_by(
        check_tensor(file, join(p, "k.weight").as_str()),
    ).followed_by(
        check_tensor(file, join(p, "v.weight").as_str()),
    ).followed_by(
        check_tensor(file, join(p, "o.weight").as_str()),
    )
}

/// How loading cross-attention weights would go.
fn check_cross_attention(file: &ModelFile<'_>, p: &str) -> (res: LoadCheck)
    ensures
        res.shows(cross_attention_step(file.entries(), p@)),
{
    check_tensor(file, join(p, "q.weight").as_str()).followed_by(
        check_tensor(file, join(p, "k.weight").as_str()),
    ).followed_by(
        check_tensor(file, join(p, "v.weight").as_str()),
    ).followed_by(
        check_tensor(file, join(p, "o.weight").as_str()),
    )
}

/// How loading feed-forward weights would go.
fn check_ffn(file: &ModelFile<'_>, p: &str, gated: bool) -> (res: LoadCheck)
    ensures
        res.shows(ffn_step(file.entries(), p@, gated)),
{
    let name: &str = if gated {
        "DenseActDense."
    } else {
        "DenseReluDense."
    };
    let f = join(p, name);
    let inner = if gated {
        check_tensor(file, join(f.as_str(), "wi_0.weight").as_str()).followed_by(
            check_tensor(file, join(f.as_str(), "wi_1.weight").as_str()),
        )
    } else {
        check_tensor(file, join(f.as_str(), "wi.weight").as_str())
    };
    inner.followed_by(check_tensor(file, join(f.as_str(), "wo.weight").as_str()))
}

/// How loading an encoder block would go.
fn check_encoder_layer(file: &ModelFile<'_>, p: &str, first: bool, gated: bool) -> (res: LoadCheck)
    ensures
        res.shows(encoder_layer_step(file.entries(), p@, first, gated)),
{
    check_self_attention(file, join(p, "layer.0.SelfAttention.").as_str(), first).followed_by(
        check_tensor(file, join(p, "layer.0.layer_norm.weight").as_str()),
    ).followed_by(
        check_ffn(file, join(p, "layer.1.").as_str(), gated),
    ).followed_by(
        check_tensor(file, join(p, "layer.1.layer_norm.weight").as_str()),
    )
}

/// How loading the first `n` encoder blocks would go.
fn check_encoder(file: &ModelFile<'_>, n: usize, gated: bool) -> (res: LoadCheck)
    ensures
        res.shows(encoder_step(file.entries(), n as nat, gated)),
{
    let mut check = LoadCheck::nothing();
    let mut i: usize = 0;
    while i < n
        invariant
            i <= n,
            check.shows(encoder_step(file.entries(), i as nat, gated)),
        decreases n - i,
    {
        let p = join_numbered("encoder.block.", i, ".");
        check = check.followed_by(check_encoder_layer(file, p.as_str(), i == 0, gated));
        i = i + 1;
    }
    check
}

/// How loading a decoder block would go.
fn check_decoder_layer(file: &ModelFile<'_>, p: &str, first: bool, gated: bool) -> (res: LoadCheck)
    ensures
        res.shows(decoder_layer_step(file.entries(), p@, first, gated)),
{
    check_self_attention(file, join(p, "layer.0.SelfAttention.").as_str(), first).followed_by(
        check_tensor(file, join(p, "layer.0.layer_norm.weight").as_str()),
    ).followed_by(
        check_cross_attention(file, join(p, "layer.1.EncDecAttention.").as_str()),
    ).followed_by(
        check_tensor(file, join(p, "layer.1.layer_norm.weight").as_str()),
    ).followed_by(
        check_ffn(file, join(p, "layer.2.").as_str(), gated),
    ).followed_by(
        check_tensor(file, join(p, "layer.2.layer_norm.weight").as_str()),
    )
}

/// How loading the first `n` decoder blocks would go.
fn check_decoder(file: &ModelFile<'_>, n: usize, gated: bool) -> (res: LoadCheck)
    ensures
        res.shows(decoder_step(file.entries(), n as nat, gated)),
{
    let mut check = LoadCheck::nothing();
    let mut i: usize = 0;
    while i < n
        invariant
            i <= n,
            check.shows(decoder_step(file.entries(), i as nat, gated)),
        decreases n - i,
    {
        let p = join_numbered("decoder.block.", i, ".");
        check = check.followed_by(check_decoder_layer(file, p.as_str(), i == 0, gated));
        i = i + 1;
    }
    check
}

impl<T: Copy> T5Model<T> {
    /// Whether every tensor that loading gets to has a shape that can be used.
    pub fn can_load(file: &ModelFile<'_>, config: &T5Config<T>) -> (res: bool)
        ensures
            res == model_step(file.entries(), *config).fits,
    {
        let gated = config.is_gated_act;
        check_encoder(file, config.num_encoder_layers, gated).followed_by(
            check_decoder(file, config.num_decoder_layers, gated),
        ).followed_by(check_tensor(file, "shared.weight")).followed_by(
            check_optional(file, "lm_head.weight"),
        ).followed_by(check_tensor(file, "encoder.final_layer_norm.weight")).followed_by(
            check_tensor(file, "decoder.final_layer_norm.weight"),
        ).fits
    }
}

// ---------------------------------------------------------------------------
// Relative positions
// ---------------------------------------------------------------------------

/// How far back a position lies: in both directions its distance, and otherwise
/// its distance if it lies in the past.
pub open spec fn distance_of(relative_position: i32, bidirectional: bool) -> int {
    if relative_position <= 0 {
        -relative_position
    } else if bidirectional {
        relative_position as int
    } else {
        0
    }
}

/// The bucket that a distance may fall into, of the buckets of one direction.
/// The lower half stands for one distance each; how far a greater distance lies
/// above them is what `step` says of the distance, the number of such buckets,
/// the maximal distance and the number of buckets that are left.
pub open spec fn distance_bucket_gives<S: Fn(usize, usize, usize, usize) -> usize>(
    distance: int,
    num_buckets: int,
    max_distance: usize,
    step: S,
    bucket: int,
) -> bool {
    let max_exact = num_buckets / 2;
    if distance < max_exact {
        bucket == distance
    } else if max_exact == 0 || max_distance <= max_exact {
        bucket == max_exact
    } else {
        exists|above: usize|
            #[trigger] call_ensures(
                step,
                (
                    distance as usize,
                    max_exact as usize,
                    max_distance,
                    (num_buckets - max_exact) as usize,
                ),
                above,
            ) && bucket == if max_exact + above < num_buckets {
                max_exact + above
            } else {
                num_buckets - 1
            }
    }
}

/// The bucket that a relative position may fall into. In both directions the
/// buckets are split in two halves, the upper one for positions that follow.
pub open spec fn bucket_gives<S: Fn(usize, usize, usize, usize) -> usize>(
    relative_position: i32,
    bidirectional: bool,
    num_buckets: int,
    max_distance: usize,
    step: S,
    bucket: int,
) -> bool {
    let distance = distance_of(relative_position, bidirectional);
    if !bidirectional {
        distance_bucket_gives(distance, num_buckets, max_distance, step, bucket)
    } else if relative_position > 0 {
        distance_bucket_gives(
            distance,
            num_buckets / 2,
            max_distance,
            step,
            bucket - num_buckets / 2,
        )
    } else {
        distance_bucket_gives(distance, num_buckets / 2, max_distance, step, bucket)
    }
}

/// There is a bucket for every relative position.
pub proof fn lemma_bucket_in_range<S: Fn(usize, usize, usize, usize) -> usize>(
    relative_position: i32,
    bidirectional: bool,
    num_buckets: int,
    max_distance: usize,
    step: S,
    bucket: int,
)
    requires
        num_buckets > 0,
        bucket_gives(relative_position, bidirectional, num_buckets, max_distance, step, bucket),
    ensures
        0 <= bucket < num_buckets,
{
}

/// In both directions, positions that follow have buckets above those of the
/// positions that do not.
pub proof fn lemma_following_positions_above<S: Fn(usize, usize, usize, usize) -> usize>(
    following: i32,
    other: i32,
    num_buckets: int,
    max_distance: usize,
    step: S,
    following_bucket: int,
    other_bucket: int,
)
    requires
        num_buckets >= 2,
        following > 0,
        other <= 0,
        bucket_gives(following, true, num_buckets, max_distance, step, following_bucket),
        bucket_gives(other, true, num_buckets, max_distance, step, other_bucket),
    ensures
        other_bucket < following_bucket,
{
}

/// In both directions, the bucket of a position that follows is that of the
/// position as far in front, in the upper half.
pub proof fn lemma_opposite_positions<S: Fn(usize, usize, usize, usize) -> usize>(
    relative_position: i32,
    num_buckets: int,
    max_distance: usize,
    step: S,
    bucket: int,
)
    requires
        relative_position > 0,
    ensures
        bucket_gives(
            relative_position,
            true,
            num_buckets,
            max_distance,
            step,
            bucket + num_buckets / 2,
        ) == bucket_gives(
            (-relative_position) as i32,
            true,
            num_buckets,
            max_distance,
            step,
            bucket,
        ),
{
}

/// In one direction, all positions that follow have the bucket of the position
/// itself.
pub proof fn lemma_following_positions_alike<S: Fn(usize, usize, usize, usize) -> usize>(
    relative_position: i32,
    num_buckets: int,
    max_distance: usize,
    step: S,
    bucket: int,
)
    requires
        relative_position >= 0,
    ensures
        bucket_gives(relative_position, false, num_buckets, max_distance, step, bucket)
            == bucket_gives(0, false, num_buckets, max_distance, step, bucket),
{
}

/// For the same arguments the same result comes out.
pub open spec fn gives_one_step<S: Fn(usize, usize, usize, usize) -> usize>(step: S) -> bool {
    forall|a: usize, b: usize, c: usize, d: usize, x: usize, y: usize|
        #[trigger] call_ensures(step, (a, b, c, d), x) && #[trigger] call_ensures(
            step,
            (a, b, c, d),
            y,
        ) ==> x == y
}

/// A relative position falls into one bucket.
pub proof fn lemma_one_bucket<S: Fn(usize, usize, usize, usize) -> usize>(
    relative_position: i32,
    bidirectional: bool,
    num_buckets: int,
    max_distance: usize,
    step: S,
    a: int,
    b: int,
)
    requires
        gives_one_step(step),
        bucket_gives(relative_position, bidirectional, num_buckets, max_distance, step, a),
        bucket_gives(relative_position, bidirectional, num_buckets, max_distance, step, b),
    ensures
        a == b,
{
}

/// In one direction, the position itself and those that follow fall into the
/// first bucket.
pub proof fn lemma_following_positions_first<S: Fn(usize, usize, usize, usize) -> usize>(
    relative_position: i32,
    num_buckets: int,
    max_distance: usize,
    step: S,
    bucket: int,
)
    requires
        relative_position >= 0,
        num_buckets >= 0,
        bucket_gives(relative_position, false, num_buckets, max_distance, step, bucket),
    ensures
        bucket == 0,
{
}

/// In both directions, the bucket of a position that follows is half the number
/// of buckets above the one of the position as far in front.
pub proof fn lemma_opposite_buckets<S: Fn(usize, usize, usize, usize) -> usize>(
    relative_position: i32,
    num_buckets: int,
    max_distance: usize,
    step: S,
    following: int,
    opposite: int,
)
    requires
        relative_position > 0,
        gives_one_step(step),
        bucket_gives(relative_position, true, num_buckets, max_distance, step, following),
        bucket_gives(
            (-relative_position) as i32,
            true,
            num_buckets,
            max_distance,
            step,
            opposite,
        ),
    ensures
        following == num_buckets / 2 + opposite,
{
    lemma_opposite_positions(relative_position, num_buckets, max_distance, step, opposite);
    lemma_one_bucket(
        relative_position,
        true,
        num_buckets,
        max_distance,
        step,
        following,
        opposite + num_buckets / 2,
    );
}

/// Bucket of a relative position. `step` says how far above the exact buckets a
/// great distance lies.
pub fn relative_position_bucket<S: Fn(usize, usize, usize, usize) -> usize>(
    relative_position: i32,
    bidirectional: bool,
    num_buckets: usize,
    max_distance: usize,
    step: &S,
) -> (res: usize)
    requires
        bidirectional || relative_position > i32::MIN,
        forall|a: usize, b: usize, c: usize, d: usize|
            #[trigger] call_requires(*step, (a, b, c, d)),
    ensures
        bucket_gives(
            relative_position,
            bidirectional,
            num_buckets as int,
            max_distance,
            *step,
            res as int,
        ),
{
    let per_direction: usize = if bidirectional {
        num_buckets / 2
    } else {
        num_buckets
    };
    let first: usize = if bidirectional && relative_position > 0 {
        per_direction
    } else {
        0
    };
    let distance: usize = if relative_position > 0 {
        if bidirectional {
            relative_position as usize
        } else {
            0
        }
    } else {
        (-(relative_position as i64)) as usize
    };
    let max_exact: usize = per_direction / 2;
    let bucket: usize = if distance < max_exact {
        distance
    } else if max_exact == 0 || max_distance <= max_exact {
        max_exact
    } else {
        assert(call_requires(
            *step,
            (distance, max_exact, max_distance, (per_direction - max_exact) as usize),
        ));
        let above: usize = step(distance, max_exact, max_distance, per_direction - max_exact);
        if above < per_direction - max_exact {
            max_exact + above
        } else {
            per_direction - 1
        }
    };
    first + bucket
}

/// The bucket of every pair of positions, row by row.
pub open spec fn buckets_give<S: Fn(usize, usize, usize, usize) -> usize>(
    buckets: Seq<usize>,
    q_len: int,
    k_len: int,
    bidirectional: bool,
    num_buckets: int,
    max_distance: usize,
    step: S,
) -> bool {
    buckets.len() == q_len * k_len && forall|c: int|
        0 <= c < q_len * k_len ==> bucket_gives(
            (c % k_len - c / k_len) as i32,
            bidirectional,
            num_buckets,
            max_distance,
            step,
            #[trigger] buckets[c] as int,
        )
}

/// A table of biases, `num_heads` for each bucket, holds those of every bucket
/// that can come up.
pub open spec fn table_covers<S: Fn(usize, usize, usize, usize) -> usize>(
    table_len: int,
    num_heads: int,
    q_len: int,
    k_len: int,
    bidirectional: bool,
    num_buckets: int,
    max_distance: usize,
    step: S,
) -> bool {
    forall|qi: int, ki: int, bucket: int|
        0 <= qi < q_len && 0 <= ki < k_len && #[trigger] bucket_gives(
            (ki - qi) as i32,
            bidirectional,
            num_buckets,
            max_distance,
            step,
            bucket,
        ) ==> (bucket + 1) * num_heads <= table_len
}

/// The biases of all heads: for each head those of all pairs of positions.
pub open spec fn biases_of<T>(table: Seq<T>, num_heads: int, buckets: Seq<usize>) -> Seq<T> {
    Seq::new(
        num_heads as nat * buckets.len(),
        |c: int|
            table[buckets[c % buckets.len() as int] * num_heads + c / buckets.len() as int],
    )
}

/// `out` may be the biases that the table gives for all pairs of positions.
pub open spec fn is_relative_bias<T, S: Fn(usize, usize, usize, usize) -> usize>(
    out: Tensor<T>,
    table: Tensor<T>,
    q_len: usize,
    k_len: usize,
    bidirectional: bool,
    num_buckets: usize,
    max_distance: usize,
    step: S,
) -> bool {
    let num_heads = table.dims().last();
    &&& out.wf()
    &&& out.dims() == seq![num_heads, q_len, k_len]
    &&& num_heads > 0 ==> exists|buckets: Seq<usize>|
        #[trigger] buckets_give(
            buckets,
            q_len as int,
            k_len as int,
            bidirectional,
            num_buckets as int,
            max_distance,
            step,
        ) && out.elems() == biases_of(table.elems(), num_heads as int, buckets)
}

/// A table with a row for every bucket covers all of them.
pub proof fn lemma_full_table_covers<S: Fn(usize, usize, usize, usize) -> usize>(
    table_len: int,
    num_heads: int,
    q_len: int,
    k_len: int,
    bidirectional: bool,
    num_buckets: int,
    max_distance: usize,
    step: S,
)
    requires
        num_buckets > 0,
        num_heads >= 0,
        num_buckets * num_heads <= table_len,
    ensures
        table_covers(
            table_len,
            num_heads,
            q_len,
            k_len,
            bidirectional,
            num_buckets,
            max_distance,
            step,
        ),
{
    assert forall|qi: int, ki: int, bucket: int|
        0 <= qi < q_len && 0 <= ki < k_len && #[trigger] bucket_gives(
            (ki - qi) as i32,
            bidirectional,
            num_buckets,
            max_distance,
            step,
            bucket,
        ) implies (bucket + 1) * num_heads <= table_len by {
        lemma_bucket_in_range(
            (ki - qi) as i32,
            bidirectional,
            num_buckets,
            max_distance,
            step,
            bucket,
        );
        assert((bucket + 1) * num_heads <= num_buckets * num_heads) by (nonlinear_arith)
            requires
                bucket + 1 <= num_buckets,
                num_heads >= 0,
        ;
    }
}

/// Buckets of all pairs of positions.
fn relative_buckets<S: Fn(usize, usize, usize, usize) -> usize>(
    q_len: usize,
    k_len: usize,
    bidirectional: bool,
    num_buckets: usize,
    max_distance: usize,
    step: &S,
) -> (res: Vec<usize>)
    requires
        q_len <= i32::MAX,
        k_len <= i32::MAX,
        q_len * k_len <= usize::MAX,
        forall|a: usize, b: usize, c: usize, d: usize|
            #[trigger] call_requires(*step, (a, b, c, d)),
    ensures
        buckets_give(
            res@,
            q_len as int,
            k_len as int,
            bidirectional,
            num_buckets as int,
            max_distance,
            *step,
        ),
{
    let n: usize = q_len * k_len;
    let mut out: Vec<usize> = Vec::new();
    let mut c: usize = 0;
    while c < n
        invariant
            c <= n,
            n == q_len * k_len,
            q_len <= i32::MAX,
            k_len <= i32::MAX,
            forall|a: usize, b: usize, c: usize, d: usize|
                #[trigger] call_requires(*step, (a, b, c, d)),
            out@.len() == c,
            forall|k: int|
                0 <= k < c ==> bucket_gives(
                    (k % k_len as int - k / k_len as int) as i32,
                    bidirectional,
                    num_buckets as int,
                    max_distance,
                    *step,
                    #[trigger] out@[k] as int,
                ),
        decreases n - c,
    {
        proof {
            lemma_row_of_index(c as int, q_len as int, k_len as int);
        }
        let qi: usize = c / k_len;
        let ki: usize = c % k_len;
        let rel: i32 = ki as i32 - qi as i32;
        out.push(relative_position_bucket(rel, bidirectional, num_buckets, max_distance, step));
        c = c + 1;
    }
    out
}

/// A table of biases serves queries and keys of these lengths: there are not too
/// many pairs of positions, and it holds the biases of every bucket that can come
/// up.
pub open spec fn relative_bias_fits<T, S: Fn(usize, usize, usize, usize) -> usize>(
    table: Tensor<T>,
    q_len: usize,
    k_len: usize,
    bidirectional: bool,
    num_buckets: usize,
    max_distance: usize,
    step: S,
) -> bool {
    &&& table.wf()
    &&& table.dims().len() > 0
    &&& q_len <= i32::MAX
    &&& k_len <= i32::MAX
    &&& table.dims().last() * q_len * k_len <= usize::MAX
    &&& table_covers(
        table.elems().len() as int,
        table.dims().last() as int,
        q_len as int,
        k_len as int,
        bidirectional,
        num_buckets as int,
        max_distance,
        step,
    )
}

/// Computes T5's relative position bias tensor `[num_heads, q_len, k_len]`.
///
/// `bidirectional = true` for encoder self-attention; `false` for causal
/// (decoder self-attention). `bias_weight` has one row of `num_heads` biases for
/// each bucket.
pub fn compute_relative_bias<T: Copy, S: Fn(usize, usize, usize, usize) -> usize>(
    bias_weight: &Tensor<T>,
    q_len: usize,
    k_len: usize,
    bidirectional: bool,
    num_buckets: usize,
    max_distance: usize,
    step: &S,
) -> (res: Tensor<T>)
    requires
        relative_bias_fits(
            *bias_weight,
            q_len,
            k_len,
            bidirectional,
            num_buckets,
            max_distance,
            *step,
        ),
        forall|a: usize, b: usize, c: usize, d: usize|
            #[trigger] call_requires(*step, (a, b, c, d)),
    ensures
        is_relative_bias(
            res,
            *bias_weight,
            q_len,
            k_len,
            bidirectional,
            num_buckets,
            max_distance,
            *step,
        ),
{
    try_compute_relative_bias(
        bias_weight,
        q_len,
        k_len,
        bidirectional,
        num_buckets,
        max_distance,
        step,
    ).unwrap()
}

/// A row of a table lies inside it.
proof fn lemma_table_row(bucket: int, num_heads: int, table_len: int)
    requires
        num_heads > 0,
        table_len >= 0,
    ensures
        bucket < table_len / num_heads <==> (bucket + 1) * num_heads <= table_len,
{
    let rows = table_len / num_heads;
    assert(rows * num_heads <= table_len < (rows + 1) * num_heads) by (nonlinear_arith)
        requires
            num_heads > 0,
            rows == table_len / num_heads,
    ;
    if bucket < rows {
        assert((bucket + 1) * num_heads <= rows * num_heads) by (nonlinear_arith)
            requires
                bucket + 1 <= rows,
                num_heads > 0,
        ;
    } else {
        assert((rows + 1) * num_heads <= (bucket + 1) * num_heads) by (nonlinear_arith)
            requires
                rows <= bucket,
                num_heads > 0,
        ;
    }
}

/// Computes the relative position bias as
/// [`compute_relative_bias`] does; nothing where the table does not serve these
/// lengths.
pub fn try_compute_relative_bias<T: Copy, S: Fn(usize, usize, usize, usize) -> usize>(
    bias_weight: &Tensor<T>,
    q_len: usize,
    k_len: usize,
    bidirectional: bool,
    num_buckets: usize,
    max_distance: usize,
    step: &S,
) -> (res: Option<Tensor<T>>)
    requires
        forall|a: usize, b: usize, c: usize, d: usize|
            #[trigger] call_requires(*step, (a, b, c, d)),
    ensures
        match res {
            Some(out) => is_relative_bias(
                out,
                *bias_weight,
                q_len,
                k_len,
                bidirectional,
                num_buckets,
                max_distance,
                *step,
            ),
            None => !relative_bias_fits(
                *bias_weight,
                q_len,
                k_len,
                bidirectional,
                num_buckets,
                max_distance,
                *step,
            ),
        },
{
    let shape = *bias_weight.shape();
    if !bias_weight.is_consistent() || shape.ndim() == 0 || q_len as u64 > i32::MAX as u64
        || k_len as u64 > i32::MAX as u64 {
        return None;
    }
    let num_heads: usize = shape.as_slice()[shape.ndim() - 1];
    let table = bias_weight.data();
    proof {
        lemma_product_3(seq![num_heads, q_len, k_len]);
    }
    let mut out: Vec<T> = Vec::new();
    if num_heads == 0 {
        proof {
            assert(0 * q_len * k_len == 0) by (nonlinear_arith);
        }
        return Some(Tensor::from_vec(out, &[num_heads, q_len, k_len]));
    }
    proof {
        assert(num_heads * q_len * k_len == num_heads * (q_len * k_len)) by (nonlinear_arith);
        assert(q_len * k_len <= num_heads * (q_len * k_len)) by (nonlinear_arith)
            requires
                num_heads >= 1,
        ;
    }
    let pairs_fit = match q_len.checked_mul(k_len) {
        None => false,
        Some(pairs) => num_heads.checked_mul(pairs).is_some(),
    };
    if !pairs_fit {
        return None;
    }
    let buckets = relative_buckets(q_len, k_len, bidirectional, num_buckets, max_distance, step);
    let pairs: usize = buckets.len();
    let n: usize = num_heads * pairs;
    let rows: usize = table.len() / num_heads;
    let ghost wanted = biases_of(table@, num_heads as int, buckets@);
    let mut c: usize = 0;
    while c < n
        invariant
            c <= n,
            n == num_heads * pairs,
            num_heads > 0,
            num_heads == bias_weight.dims().last(),
            pairs == buckets@.len(),
            pairs == q_len * k_len,
            table@ == bias_weight.elems(),
            rows == table@.len() / num_heads as nat,
            wanted == biases_of(table@, num_heads as int, buckets@),
            out@ == wanted.take(c as int),
            buckets_give(
                buckets@,
                q_len as int,
                k_len as int,
                bidirectional,
                num_buckets as int,
                max_distance,
                *step,
            ),
        decreases n - c,
    {
        let ghost pair = c as int % pairs as int;
        proof {
            lemma_row_of_index(c as int, num_heads as int, pairs as int);
            lemma_row_of_index(pair, q_len as int, k_len as int);
            lemma_table_row(buckets@[pair] as int, num_heads as int, table@.len() as int);
        }
        let h: usize = c / pairs;
        let bucket: usize = buckets[c % pairs];
        if bucket >= rows {
            assert(bucket_gives(
                (pair % k_len as int - pair / k_len as int) as i32,
                bidirectional,
                num_buckets as int,
                max_distance,
                *step,
                bucket as int,
            ));
            return None;
        }
        proof {
            lemma_row_bounds(bucket as int, bucket + 1, num_heads as int);
        }
        let _len: usize = table.len();
        out.push(table[bucket * num_heads + h]);
        c = c + 1;
        assert(wanted.take(c as int) =~= wanted.take(c - 1).push(wanted[c - 1]));
    }
    assert(wanted.take(n as int) =~= wanted);
    Some(Tensor::from_vec(out, &[num_heads, q_len, k_len]))
}

} // verus!
