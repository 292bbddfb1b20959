//! BERT encoder weights.
//!
//! Supports the canonical HuggingFace BERT weight layout used by
//! `bert-base-uncased`, `distilbert-*`, `sentence-transformers/*` and
//! similar encoders. Decoder-only or seq2seq models are out of scope.

pub mod file;
pub mod forward;
pub mod meaning;
pub mod prefix;
pub mod settings;

use vstd::prelude::*;
use crate::config::{
    is_norm_eps, or_default, read_norm_eps, read_usize_field, read_usize_field_with_default,
    usize_field,
};
use crate::error::{Error, Result};
use crate::header::EntryView;
use crate::loader::{Dtype, ModelFile, TensorView, entry_named, is_loaded, load_error, rank_fits};
use crate::models::plan::{
    LoadCheck, LoadStep, check_tensor, join, join_numbered, no_step, numbered, tensor_step,
};
use crate::quant::{
    QuantizedTensorI8, QuantizedTensorU8, affine_error, bytes_and_scales_error, params_fit,
    quantized_entries_fit, scales_loaded,
};
use crate::tensor::{Tensor, product};
use crate::text::{chars_of, same_text};

verus! {

/// Architectural hyperparameters for a BERT encoder.
///
/// Mirrors the fields of HuggingFace's `BertConfig` that the forward pass
/// actually uses. Fields like `hidden_dropout_prob` are intentionally
/// omitted: there is no training and inference does not apply dropout.
#[derive(Debug, Clone, Copy)]
pub struct BertConfig<T> {
    /// Hidden dimension (e.g. 384 for MiniLM-L6, 768 for BERT-base).
    pub hidden_size: usize,
    /// Number of stacked encoder layers.
    pub num_hidden_layers: usize,
    /// Number of attention heads. Must divide `hidden_size`.
    pub num_attention_heads: usize,
    /// Feed-forward inner dimension (typically 4 * hidden_size).
    pub intermediate_size: usize,
    /// Token vocabulary size.
    pub vocab_size: usize,
    /// Maximum supported positional index.
    pub max_position_embeddings: usize,
    /// Token-type (segment) vocabulary size (BERT uses 2; some models use 1).
    pub type_vocab_size: usize,
    /// LayerNorm epsilon.
    pub layer_norm_eps: T,
}

impl<T> BertConfig<T> {
    /// Config for `sentence-transformers/all-MiniLM-L6-v2`.
    pub fn mini_lm_l6_v2(layer_norm_eps: T) -> (res: Self)
        ensures
            res == (BertConfig {
                hidden_size: 384,
                num_hidden_layers: 6,
                num_attention_heads: 12,
                intermediate_size: 1536,
                vocab_size: 30522,
                max_position_embeddings: 512,
                type_vocab_size: 2,
                layer_norm_eps,
            }),
            res.intermediate_size == 4 * res.hidden_size,
            res.hidden_size == 32 * res.num_attention_heads,
    {
        BertConfig {
            hidden_size: 384,
            num_hidden_layers: 6,
            num_attention_heads: 12,
            intermediate_size: 1536,
            vocab_size: 30522,
            max_position_embeddings: 512,
            type_vocab_size: 2,
            layer_norm_eps,
        }
    }

    /// Config for `bert-base-uncased`.
    pub fn bert_base(layer_norm_eps: T) -> (res: Self)
        ensures
            res == (BertConfig {
                hidden_size: 768,
                num_hidden_layers: 12,
                num_attention_heads: 12,
                intermediate_size: 3072,
                vocab_size: 30522,
                max_position_embeddings: 512,
                type_vocab_size: 2,
                layer_norm_eps,
            }),
            res.intermediate_size == 4 * res.hidden_size,
            res.hidden_size == 64 * res.num_attention_heads,
    {
        BertConfig {
            hidden_size: 768,
            num_hidden_layers: 12,
            num_attention_heads: 12,
            intermediate_size: 3072,
            vocab_size: 30522,
            max_position_embeddings: 512,
            type_vocab_size: 2,
            layer_norm_eps,
        }
    }
}

/// Why a `config.json` describes no BERT model, if it does not.
pub open spec fn bert_config_error(json: Seq<char>) -> Option<Error> {
    if usize_field(json, "hidden_size"@) is None {
        Some(Error::InvalidInput("config.json: missing hidden_size"))
    } else if usize_field(json, "num_hidden_layers"@) is None {
        Some(Error::InvalidInput("config.json: missing num_hidden_layers"))
    } else if usize_field(json, "num_attention_heads"@) is None {
        Some(Error::InvalidInput("config.json: missing num_attention_heads"))
    } else if usize_field(json, "intermediate_size"@) is None {
        Some(Error::InvalidInput("config.json: missing intermediate_size"))
    } else if usize_field(json, "vocab_size"@) is None {
        Some(Error::InvalidInput("config.json: missing vocab_size"))
    } else {
        None
    }
}

/// The configuration is the one that a `config.json` describes.
pub open spec fn is_bert_config<T, P: Fn(&str) -> Option<T>>(
    config: BertConfig<T>,
    json: Seq<char>,
    parse: P,
    default_eps: T,
) -> bool {
    &&& usize_field(json, "hidden_size"@) == Some(config.hidden_size)
    &&& usize_field(json, "num_hidden_layers"@) == Some(config.num_hidden_layers)
    &&& usize_field(json, "num_attention_heads"@) == Some(config.num_attention_heads)
    &&& usize_field(json, "intermediate_size"@) == Some(config.intermediate_size)
    &&& usize_field(json, "vocab_size"@) == Some(config.vocab_size)
    &&& config.max_position_embeddings == or_default(
        usize_field(json, "max_position_embeddings"@),
        512,
    )
    &&& config.type_vocab_size == or_default(usize_field(json, "type_vocab_size"@), 2)
    &&& is_norm_eps(json, parse, default_eps, config.layer_norm_eps)
}

impl<T> BertConfig<T> {
    /// Parses a HuggingFace `config.json` string. `parse` turns a numeral into
    /// an epsilon; `default_eps` is the epsilon where the file gives none.
    pub fn from_config_json<P: Fn(&str) -> Option<T>>(
        json: &str,
        parse: &P,
        default_eps: T,
    ) -> (res: Result<Self>)
        requires
            forall|s: &str| #[trigger] call_requires(*parse, (s,)),
        ensures
            match bert_config_error(json@) {
                Some(e) => res == Err::<Self, Error>(e),
                None => res matches Ok(config) && is_bert_config(
                    config,
                    json@,
                    *parse,
                    default_eps,
                ),
            },
    {
        let chars = chars_of(json);
        let text = chars.as_slice();
        let hidden_size: usize = match read_usize_field(text, "hidden_size") {
            Some(v) => v,
            None => {
                return Err(Error::InvalidInput("config.json: missing hidden_size"));
            },
        };
        let num_hidden_layers: usize = match read_usize_field(text, "num_hidden_layers") {
            Some(v) => v,
            None => {
                return Err(Error::InvalidInput("config.json: missing num_hidden_layers"));
            },
        };
        let num_attention_heads: usize = match read_usize_field(text, "num_attention_heads") {
            Some(v) => v,
            None => {
                return Err(Error::InvalidInput("config.json: missing num_attention_heads"));
            },
        };
        let intermediate_size: usize = match read_usize_field(text, "intermediate_size") {
            Some(v) => v,
            None => {
                return Err(Error::InvalidInput("config.json: missing intermediate_size"));
            },
        };
        let vocab_size: usize = match read_usize_field(text, "vocab_size") {
            Some(v) => v,
            None => {
                return Err(Error::InvalidInput("config.json: missing vocab_size"));
            },
        };
        let max_position_embeddings: usize = read_usize_field_with_default(
            text,
            "max_position_embeddings",
            512,
        );
        let type_vocab_size: usize = read_usize_field_with_default(text, "type_vocab_size", 2);
        let layer_norm_eps = read_norm_eps(text, parse, default_eps);
        Ok(
            BertConfig {
                hidden_size,
                num_hidden_layers,
                num_attention_heads,
                intermediate_size,
                vocab_size,
                max_position_embeddings,
                type_vocab_size,
                layer_norm_eps,
            },
        )
    }
}

// ---------------------------------------------------------------------------
// Weights
// ---------------------------------------------------------------------------

/// Embedding tables and their normalization.
pub struct BertEmbeddings<T> {
    pub word: Tensor<T>,
    pub position: Tensor<T>,
    pub token_type: Tensor<T>,
    pub ln_gamma: Tensor<T>,
    pub ln_beta: Tensor<T>,
}

/// A weight matrix in one of the supported precisions.
pub enum LinearWeight<T> {
    F32(Tensor<T>),
    I8(QuantizedTensorI8<T>),
    U8(QuantizedTensorU8<T>),
}

/// Query, key and value projections.
pub struct BertSelfAttention<T> {
    pub wq: LinearWeight<T>,
    pub bq: Tensor<T>,
    pub wk: LinearWeight<T>,
    pub bk: Tensor<T>,
    pub wv: LinearWeight<T>,
    pub bv: Tensor<T>,
}

/// The attention block of a layer.
pub struct BertAttention<T> {
    pub self_attn: BertSelfAttention<T>,
    pub wo: LinearWeight<T>,
    pub bo: Tensor<T>,
    pub ln_gamma: Tensor<T>,
    pub ln_beta: Tensor<T>,
}

/// The feed-forward block of a layer.
pub struct BertFeedForward<T> {
    pub w_inter: LinearWeight<T>,
    pub b_inter: Tensor<T>,
    pub w_out: LinearWeight<T>,
    pub b_out: Tensor<T>,
    pub ln_gamma: Tensor<T>,
    pub ln_beta: Tensor<T>,
}

/// One encoder layer.
pub struct BertLayer<T> {
    pub attention: BertAttention<T>,
    pub ffn: BertFeedForward<T>,
}

/// Full BERT encoder.
///
/// Construct via [`BertModel::from_safetensors`]. The model owns its weights
/// (no external references), so it can be cached, sent across threads (it is
/// `Send`), or dropped freely.
pub struct BertModel<T> {
    /// Architectural configuration this model was built with.
    pub config: BertConfig<T>,
    pub embeddings: BertEmbeddings<T>,
    pub layers: Vec<BertLayer<T>>,
}

// ---------------------------------------------------------------------------
// Which tensor goes where
// ---------------------------------------------------------------------------

/// The name of the scales of a quantized weight.
pub open spec fn scale_name(name: Seq<char>) -> Seq<char> {
    name + ".scale"@
}

/// The name of the zero points of a quantized weight.
pub open spec fn zero_point_name(name: Seq<char>) -> Seq<char> {
    name + ".zero_point"@
}

/// Loading a weight matrix in whatever precision the file holds it.
pub open spec fn linear_step(entries: Seq<EntryView>, name: Seq<char>) -> LoadStep {
    match entry_named(entries, name) {
        None => LoadStep { error: Some(Error::TensorNotFound), fits: true },
        Some(entry) => match entry.dtype {
            Dtype::F32 => tensor_step(entries, name),
            Dtype::I8 => {
                let error = bytes_and_scales_error(entries, name, scale_name(name), Dtype::I8);
                LoadStep {
                    error,
                    fits: rank_fits(entries, scale_name(name)) && (error is None
                        ==> quantized_entries_fit(entries, name, scale_name(name))),
                }
            },
            Dtype::U8 => {
                let error = affine_error(entries, name, scale_name(name), zero_point_name(name));
                LoadStep {
                    error,
                    fits: rank_fits(entries, scale_name(name)) && (error is None
                        ==> quantized_entries_fit(entries, name, scale_name(name)) && params_fit(
                        product(entry_named(entries, zero_point_name(name)).unwrap().shape),
                        entry.shape[0] as int,
                    )),
                }
            },
            _ => LoadStep { error: Some(Error::DtypeMismatch), fits: true },
        },
    }
}

/// The weight matrix is the one that the file holds under this name.
pub open spec fn is_linear_loaded<T, F: Fn(u32) -> T>(
    weight: LinearWeight<T>,
    entries: Seq<EntryView>,
    bytes: Seq<u8>,
    name: Seq<char>,
    decode: F,
) -> bool {
    entry_named(entries, name) matches Some(entry) && match weight {
        LinearWeight::F32(w) => entry.dtype == Dtype::F32 && is_loaded(
            w,
            entries,
            bytes,
            name,
            decode,
        ),
        LinearWeight::I8(w) => entry.dtype == Dtype::I8 && w.dims() == entry.shape && w.values()
            == bytes.subrange(entry.data_start, entry.data_end).map_values(|b: u8| b as i8)
            && scales_loaded(w.scale_list(), entries, bytes, scale_name(name), decode),
        LinearWeight::U8(w) => entry.dtype == Dtype::U8 && w.dims() == entry.shape && w.values()
            == bytes.subrange(entry.data_start, entry.data_end) && scales_loaded(
            w.scale_list(),
            entries,
            bytes,
            scale_name(name),
            decode,
        ) && (entry_named(entries, zero_point_name(name)) matches Some(zeros)
            && w.zero_point_list() == bytes.subrange(zeros.data_start, zeros.data_end)),
    }
}

/// Loads a weight matrix in whatever precision the file holds it.
fn load_linear<T: Copy, F: Fn(u32) -> T>(file: &ModelFile<'_>, name: &str, decode: &F) -> (res:
    Result<LinearWeight<T>>)
    requires
        forall|word: u32| call_requires(*decode, (word,)),
        linear_step(file.entries(), name@).fits,
    ensures
        match linear_step(file.entries(), name@).error {
            Some(e) => res == Err::<LinearWeight<T>, Error>(e),
            None => res matches Ok(weight) && is_linear_loaded(
                weight,
                file.entries(),
                file.bytes(),
                name@,
                *decode,
            ),
        },
{
    let view = match file.get(name) {
        Ok(view) => view,
        Err(e) => {
            return Err(e);
        },
    };
    match view.dtype {
        Dtype::F32 => match file.load(name, decode) {
            Ok(tensor) => Ok(LinearWeight::F32(tensor)),
            Err(e) => Err(e),
        },
        Dtype::I8 => {
            let scales = join(name, ".scale");
            match QuantizedTensorI8::from_safetensors(file, name, scales.as_str(), decode) {
                Ok(q) => Ok(LinearWeight::I8(q)),
                Err(e) => Err(e),
            }
        },
        Dtype::U8 => {
            let scales = join(name, ".scale");
            let zeros = join(name, ".zero_point");
            match QuantizedTensorU8::from_safetensors(
                file,
                name,
                scales.as_str(),
                zeros.as_str(),
                decode,
            ) {
                Ok(q) => Ok(LinearWeight::U8(q)),
                Err(e) => Err(e),
            }
        },
        _ => Err(Error::DtypeMismatch),
    }
}

/// What every tensor name starts with: nothing, or the prefix and a dot.
pub open spec fn name_prefix(prefix: Seq<char>) -> Seq<char> {
    if prefix.len() == 0 {
        Seq::empty()
    } else {
        prefix + "."@
    }
}

/// What the names of the tensors of a layer start with.
pub open spec fn layer_prefix(p: Seq<char>, i: nat) -> Seq<char> {
    numbered(p + "encoder.layer."@, i, "."@)
}

/// Loading the embedding tables.
pub open spec fn embeddings_step(entries: Seq<EntryView>, p: Seq<char>) -> LoadStep {
    tensor_step(entries, p + "embeddings.word_embeddings.weight"@).followed_by(
        tensor_step(entries, p + "embeddings.position_embeddings.weight"@),
    ).followed_by(
        tensor_step(entries, p + "embeddings.token_type_embeddings.weight"@),
    ).followed_by(tensor_step(entries, p + "embeddings.LayerNorm.weight"@)).followed_by(
        tensor_step(entries, p + "embeddings.LayerNorm.bias"@),
    )
}

/// The embedding tables are those of the file.
pub open spec fn are_embeddings_loaded<T, F: Fn(u32) -> T>(
    e: BertEmbeddings<T>,
    entries: Seq<EntryView>,
    bytes: Seq<u8>,
    p: Seq<char>,
    decode: F,
) -> bool {
    &&& is_loaded(e.word, entries, bytes, p + "embeddings.word_embeddings.weight"@, decode)
    &&& is_loaded(e.position, entries, bytes, p + "embeddings.position_embeddings.weight"@, decode)
    &&& is_loaded(
        e.token_type,
        entries,
        bytes,
        p + "embeddings.token_type_embeddings.weight"@,
        decode,
    )
    &&& is_loaded(e.ln_gamma, entries, bytes, p + "embeddings.LayerNorm.weight"@, decode)
    &&& is_loaded(e.ln_beta, entries, bytes, p + "embeddings.LayerNorm.bias"@, decode)
}

/// Loading the attention block whose names start with `p`.
pub open spec fn attention_step(entries: Seq<EntryView>, p: Seq<char>) -> LoadStep {
    linear_step(entries, p + "attention.self.query.weight"@).followed_by(
        tensor_step(entries, p + "attention.self.query.bias"@),
    ).followed_by(linear_step(entries, p + "attention.self.key.weight"@)).followed_by(
        tensor_step(entries, p + "attention.self.key.bias"@),
    ).followed_by(linear_step(entries, p + "attention.self.value.weight"@)).followed_by(
        tensor_step(entries, p + "attention.self.value.bias"@),
    ).followed_by(linear_step(entries, p + "attention.output.dense.weight"@)).followed_by(
        tensor_step(entries, p + "attention.output.dense.bias"@),
    ).followed_by(tensor_step(entries, p + "attention.output.LayerNorm.weight"@)).followed_by(
        tensor_step(entries, p + "attention.output.LayerNorm.bias"@),
    )
}

/// The attention block is that of the file.
pub open spec fn is_attention_loaded<T, F: Fn(u32) -> T>(
    a: BertAttention<T>,
    entries: Seq<EntryView>,
    bytes: Seq<u8>,
    p: Seq<char>,
    decode: F,
) -> bool {
    let s = a.self_attn;
    &&& is_linear_loaded(s.wq, entries, bytes, p + "attention.self.query.weight"@, decode)
    &&& is_loaded(s.bq, entries, bytes, p + "attention.self.query.bias"@, decode)
    &&& is_linear_loaded(s.wk, entries, bytes, p + "attention.self.key.weight"@, decode)
    &&& is_loaded(s.bk, entries, bytes, p + "attention.self.key.bias"@, decode)
    &&& is_linear_loaded(s.wv, entries, bytes, p + "attention.self.value.weight"@, decode)
    &&& is_loaded(s.bv, entries, bytes, p + "attention.self.value.bias"@, decode)
    &&& is_linear_loaded(a.wo, entries, bytes, p + "attention.output.dense.weight"@, decode)
    &&& is_loaded(a.bo, entries, bytes, p + "attention.output.dense.bias"@, decode)
    &&& is_loaded(a.ln_gamma, entries, bytes, p + "attention.output.LayerNorm.weight"@, decode)
    &&& is_loaded(a.ln_beta, entries, bytes, p + "attention.output.LayerNorm.bias"@, decode)
}

/// Loading the feed-forward block whose names start with `p`.
pub open spec fn ffn_step(entries: Seq<EntryView>, p: Seq<char>) -> LoadStep {
    linear_step(entries, p + "intermediate.dense.weight"@).followed_by(
        tensor_step(entries, p + "intermediate.dense.bias"@),
    ).followed_by(linear_step(entries, p + "output.dense.weight"@)).followed_by(
        tensor_step(entries, p + "output.dense.bias"@),
    ).followed_by(tensor_step(entries, p + "output.LayerNorm.weight"@)).followed_by(
        tensor_step(entries, p + "output.LayerNorm.bias"@),
    )
}

/// The feed-forward block is that of the file.
pub open spec fn is_ffn_loaded<T, F: Fn(u32) -> T>(
    f: BertFeedForward<T>,
    entries: Seq<EntryView>,
    bytes: Seq<u8>,
    p: Seq<char>,
    decode: F,
) -> bool {
    &&& is_linear_loaded(f.w_inter, entries, bytes, p + "intermediate.dense.weight"@, decode)
    &&& is_loaded(f.b_inter, entries, bytes, p + "intermediate.dense.bias"@, decode)
    &&& is_linear_loaded(f.w_out, entries, bytes, p + "output.dense.weight"@, decode)
    &&& is_loaded(f.b_out, entries, bytes, p + "output.dense.bias"@, decode)
    &&& is_loaded(f.ln_gamma, entries, bytes, p + "output.LayerNorm.weight"@, decode)
    &&& is_loaded(f.ln_beta, entries, bytes, p + "output.LayerNorm.bias"@, decode)
}

/// Loading one layer.
pub open spec fn layer_step(entries: Seq<EntryView>, p: Seq<char>) -> LoadStep {
    attention_step(entries, p).followed_by(ffn_step(entries, p))
}

/// The layer is that of the file.
pub open spec fn is_layer_loaded<T, F: Fn(u32) -> T>(
    layer: BertLayer<T>,
    entries: Seq<EntryView>,
    bytes: Seq<u8>,
    p: Seq<char>,
    decode: F,
) -> bool {
    &&& is_attention_loaded(layer.attention, entries, bytes, p, decode)
    &&& is_ffn_loaded(layer.ffn, entries, bytes, p, decode)
}

/// Loading the first `n` layers.
pub open spec fn layers_step(entries: Seq<EntryView>, p: Seq<char>, n: nat) -> LoadStep
    decreases n,
{
    if n == 0 {
        no_step()
    } else {
        layers_step(entries, p, (n - 1) as nat).followed_by(
            layer_step(entries, layer_prefix(p, (n - 1) as nat)),
        )
    }
}

/// Loading a model with `n` layers.
pub open spec fn model_step(entries: Seq<EntryView>, p: Seq<char>, n: nat) -> LoadStep {
    embeddings_step(entries, p).followed_by(layers_step(entries, p, n))
}

/// Every weight of the model is the tensor of the file that belongs there.
pub open spec fn is_model_loaded<T, F: Fn(u32) -> T>(
    model: BertModel<T>,
    entries: Seq<EntryView>,
    bytes: Seq<u8>,
    p: Seq<char>,
    decode: F,
) -> bool {
    &&& are_embeddings_loaded(model.embeddings, entries, bytes, p, decode)
    &&& model.layers@.len() == model.config.num_hidden_layers
    &&& forall|i: int|
        0 <= i < model.layers@.len() ==> is_layer_loaded(
            #[trigger] model.layers@[i],
            entries,
            bytes,
            layer_prefix(p, i as nat),
            decode,
        )
}

/// A load that fails does so however many layers follow.
proof fn lemma_layers_step(entries: Seq<EntryView>, p: Seq<char>, k: nat, n: nat)
    requires
        k <= n,
    ensures
        layers_step(entries, p, k).error is Some ==> layers_step(entries, p, n).error
            == layers_step(entries, p, k).error,
        layers_step(entries, p, n).fits ==> layers_step(entries, p, k).fits,
    decreases n,
{
    if k < n {
        lemma_layers_step(entries, p, k, (n - 1) as nat);
    }
}

// ---------------------------------------------------------------------------
// Loading
// ---------------------------------------------------------------------------

fn load_embeddings<T, F: Fn(u32) -> T>(file: &ModelFile<'_>, p: &str, decode: &F) -> (res: Result<
    BertEmbeddings<T>,
>)
    requires
        forall|word: u32| call_requires(*decode, (word,)),
        embeddings_step(file.entries(), p@).fits,
    ensures
        match embeddings_step(file.entries(), p@).error {
            Some(e) => res == Err::<BertEmbeddings<T>, Error>(e),
            None => res matches Ok(embeddings) && are_embeddings_loaded(
                embeddings,
                file.entries(),
                file.bytes(),
                p@,
                *decode,
            ),
        },
{
    let word = match file.load(join(p, "embeddings.word_embeddings.weight").as_str(), decode) {
        Ok(t) => t,
        Err(e) => {
            return Err(e);
        },
    };
    let position = match file.load(
        join(p, "embeddings.position_embeddings.weight").as_str(),
        decode,
    ) {
        Ok(t) => t,
        Err(e) => {
            return Err(e);
        },
    };
    let token_type = match file.load(
        join(p, "embeddings.token_type_embeddings.weight").as_str(),
        decode,
    ) {
        Ok(t) => t,
        Err(e) => {
            return Err(e);
        },
    };
    let ln_gamma = match file.load(join(p, "embeddings.LayerNorm.weight").as_str(), decode) {
        Ok(t) => t,
        Err(e) => {
            return Err(e);
        },
    };
    let ln_beta = match file.load(join(p, "embeddings.LayerNorm.bias").as_str(), decode) {
        Ok(t) => t,
        Err(e) => {
            return Err(e);
        },
    };
    Ok(BertEmbeddings { word, position, token_type, ln_gamma, ln_beta })
}

fn load_attention<T: Copy, F: Fn(u32) -> T>(file: &ModelFile<'_>, p: &str, decode: &F) -> (res: Result<
    BertAttention<T>,
>)
    requires
        forall|word: u32| call_requires(*decode, (word,)),
        attention_step(file.entries(), p@).fits,
    ensures
        match attention_step(file.entries(), p@).error {
            Some(e) => res == Err::<BertAttention<T>, Error>(e),
            None => res matches Ok(attention) && is_attention_loaded(
                attention,
                file.entries(),
                file.bytes(),
                p@,
                *decode,
            ),
        },
{
    let wq = match load_linear(file, join(p, "attention.self.query.weight").as_str(), decode) {
        Ok(t) => t,
        Err(e) => {
            return Err(e);
        },
    };
    let bq = match file.load(join(p, "attention.self.query.bias").as_str(), decode) {
        Ok(t) => t,
        Err(e) => {
            return Err(e);
        },
    };
    let wk = match load_linear(file, join(p, "attention.self.key.weight").as_str(), decode) {
        Ok(t) => t,
        Err(e) => {
            return Err(e);
        },
    };
    let bk = match file.load(join(p, "attention.self.key.bias").as_str(), decode) {
        Ok(t) => t,
        Err(e) => {
            return Err(e);
        },
    };
    let wv = match load_linear(file, join(p, "attention.self.value.weight").as_str(), decode) {
        Ok(t) => t,
        Err(e) => {
            return Err(e);
        },
    };
    let bv = match file.load(join(p, "attention.self.value.bias").as_str(), decode) {
        Ok(t) => t,
        Err(e) => {
            return Err(e);
        },
    };
    let wo = match load_linear(file, join(p, "attention.output.dense.weight").as_str(), decode) {
        Ok(t) => t,
        Err(e) => {
            return Err(e);
        },
    };
    let bo = match file.load(join(p, "attention.output.dense.bias").as_str(), decode) {
        Ok(t) => t,
        Err(e) => {
            return Err(e);
        },
    };
    let ln_gamma = match file.load(join(p, "attention.output.LayerNorm.weight").as_str(), decode) {
        Ok(t) => t,
        Err(e) => {
            return Err(e);
        },
    };
    let ln_beta = match file.load(join(p, "attention.output.LayerNorm.bias").as_str(), decode) {
        Ok(t) => t,
        Err(e) => {
            return Err(e);
        },
    };
    Ok(
        BertAttention {
            self_attn: BertSelfAttention { wq, bq, wk, bk, wv, bv },
            wo,
            bo,
            ln_gamma,
            ln_beta,
        },
    )
}

fn load_ffn<T: Copy, F: Fn(u32) -> T>(file: &ModelFile<'_>, p: &str, decode: &F) -> (res: Result<
    BertFeedForward<T>,
>)
    requires
        forall|word: u32| call_requires(*decode, (word,)),
        ffn_step(file.entries(), p@).fits,
    ensures
        match ffn_step(file.entries(), p@).error {
            Some(e) => res == Err::<BertFeedForward<T>, Error>(e),
            None => res matches Ok(ffn) && is_ffn_loaded(
                ffn,
                file.entries(),
                file.bytes(),
                p@,
                *decode,
            ),
        },
{
    let w_inter = match load_linear(file, join(p, "intermediate.dense.weight").as_str(), decode) {
        Ok(t) => t,
        Err(e) => {
            return Err(e);
        },
    };
    let b_inter = match file.load(join(p, "intermediate.dense.bias").as_str(), decode) {
        Ok(t) => t,
        Err(e) => {
            return Err(e);
        },
    };
    let w_out = match load_linear(file, join(p, "output.dense.weight").as_str(), decode) {
        Ok(t) => t,
        Err(e) => {
            return Err(e);
        },
    };
    let b_out = match file.load(join(p, "output.dense.bias").as_str(), decode) {
        Ok(t) => t,
        Err(e) => {
            return Err(e);
        },
    };
    let ln_gamma = match file.load(join(p, "output.LayerNorm.weight").as_str(), decode) {
        Ok(t) => t,
        Err(e) => {
            return Err(e);
        },
    };
    let ln_beta = match file.load(join(p, "output.LayerNorm.bias").as_str(), decode) {
        Ok(t) => t,
        Err(e) => {
            return Err(e);
        },
    };
    Ok(BertFeedForward { w_inter, b_inter, w_out, b_out, ln_gamma, ln_beta })
}

fn load_layer<T: Copy, F: Fn(u32) -> T>(file: &ModelFile<'_>, p: &str, decode: &F) -> (res: Result<
    BertLayer<T>,
>)
    requires
        forall|word: u32| call_requires(*decode, (word,)),
        layer_step(file.entries(), p@).fits,
    ensures
        match layer_step(file.entries(), p@).error {
            Some(e) => res == Err::<BertLayer<T>, Error>(e),
            None => res matches Ok(layer) && is_layer_loaded(
                layer,
                file.entries(),
                file.bytes(),
                p@,
                *decode,
            ),
        },
{
    let attention = match load_attention(file, p, decode) {
        Ok(t) => t,
        Err(e) => {
            return Err(e);
        },
    };
    let ffn = match load_ffn(file, p, decode) {
        Ok(t) => t,
        Err(e) => {
            return Err(e);
        },
    };
    Ok(BertLayer { attention, ffn })
}

impl<T: Copy> BertModel<T> {
    /// Loads a BERT model from a parsed safetensors file. `decode` turns the bit
    /// pattern of an element into the element.
    ///
    /// `prefix` is prepended to every tensor name. Use:
    /// - `""` for sentence-transformers and `transformers.AutoModel` saves;
    /// - `"bert"` for `transformers.BertModel` saves that include the wrapper.
    ///
    /// The prefix is joined to names with a `.` automatically, so pass
    /// `"bert"` not `"bert."`.
    pub fn from_safetensors<F: Fn(u32) -> T>(
        file: &ModelFile<'_>,
        config: BertConfig<T>,
        prefix: &str,
        decode: &F,
    ) -> (res: Result<Self>)
        requires
            forall|word: u32| call_requires(*decode, (word,)),
            model_step(
                file.entries(),
                name_prefix(prefix@),
                config.num_hidden_layers as nat,
            ).fits,
        ensures
            match model_step(
                file.entries(),
                name_prefix(prefix@),
                config.num_hidden_layers as nat,
            ).error {
                Some(e) => res == Err::<Self, Error>(e),
                None => res matches Ok(model) && model.config == config && is_model_loaded(
                    model,
                    file.entries(),
                    file.bytes(),
                    name_prefix(prefix@),
                    *decode,
                ),
            },
    {
        let p = dotted(prefix);
        let embeddings = match load_embeddings(file, p.as_str(), decode) {
            Ok(embeddings) => embeddings,
            Err(e) => {
                return Err(e);
            },
        };
        let head = join(p.as_str(), "encoder.layer.");
        let n: usize = config.num_hidden_layers;
        let mut layers: Vec<BertLayer<T>> = Vec::new();
        let mut i: usize = 0;
        while i < n
            invariant
                i <= n,
                n == config.num_hidden_layers,
                p@ == name_prefix(prefix@),
                head@ == p@ + "encoder.layer."@,
                forall|word: u32| call_requires(*decode, (word,)),
                embeddings_step(file.entries(), p@).error is None,
                model_step(file.entries(), p@, n as nat).fits,
                layers_step(file.entries(), p@, i as nat).error is None,
                layers@.len() == i,
                forall|k: int|
                    0 <= k < i ==> is_layer_loaded(
                        #[trigger] layers@[k],
                        file.entries(),
                        file.bytes(),
                        layer_prefix(p@, k as nat),
                        *decode,
                    ),
            decreases n - i,
        {
            proof {
                lemma_layers_step(file.entries(), p@, (i + 1) as nat, n as nat);
            }
            let layer_p = join_numbered(head.as_str(), i, ".");
            assert(layer_p@ == layer_prefix(p@, i as nat));
            match load_layer(file, layer_p.as_str(), decode) {
                Ok(layer) => {
                    layers.push(layer);
                },
                Err(e) => {
                    return Err(e);
                },
            }
            i = i + 1;
        }
        Ok(BertModel { config, embeddings, layers })
    }
}

// ---------------------------------------------------------------------------
// Checking before loading
// ---------------------------------------------------------------------------

/// How loading a weight matrix in whatever precision would go.
fn check_linear(file: &ModelFile<'_>, name: &str) -> (res: LoadCheck)
    ensures
        res.shows(linear_step(file.entries(), name@)),
{
    let view = match file.get(name) {
        Ok(view) => view,
        Err(_) => {
            return LoadCheck { failed: true, fits: true };
        },
    };
    match view.dtype {
        Dtype::F32 => check_tensor(file, name),
        Dtype::I8 => {
            let scales = join(name, ".scale");
            check_quantized(file, &view, scales.as_str())
        },
        Dtype::U8 => {
            let scales = join(name, ".scale");
            let zeros = join(name, ".zero_point");
            let check = check_quantized(file, &view, scales.as_str());
            match file.get(zeros.as_str()) {
                Ok(zero_view) => {
                    if zero_view.dtype != Dtype::U8 {
                        return LoadCheck {
                            failed: true,
                            fits: file.rank_fits(scales.as_str()),
                        };
                    }
                    if check.failed || !check.fits {
                        return check;
                    }
                    let count: usize = zero_view.raw.len();
                    assert(product(zero_view.shape@) * 1 == product(zero_view.shape@));
                    LoadCheck { failed: false, fits: count == 1 || count == view.shape[0] }
                },
                Err(_) => LoadCheck { failed: true, fits: file.rank_fits(scales.as_str()) },
            }
        },
        _ => LoadCheck { failed: true, fits: true },
    }
}

/// Whether the scales of a matrix can be loaded, and whether there is one or one
/// per row.
fn check_quantized(file: &ModelFile<'_>, values: &TensorView<'_>, scales: &str) -> (res: LoadCheck)
    ensures
        res.failed == (load_error(file.entries(), scales@) is Some),
        res.fits == (rank_fits(file.entries(), scales@) && (!res.failed ==> values.shape@.len()
            == 2 && params_fit(
            product(entry_named(file.entries(), scales@).unwrap().shape),
            values.shape@[0] as int,
        ))),
{
    match file.get(scales) {
        Ok(view) => {
            if view.dtype != Dtype::F32 {
                return LoadCheck { failed: true, fits: true };
            }
            let count: usize = view.raw.len() / 4;
            LoadCheck {
                failed: false,
                fits: file.rank_fits(scales) && values.shape.len() == 2 && (count == 1 || count
                    == values.shape[0]),
            }
        },
        Err(_) => LoadCheck { failed: true, fits: true },
    }
}

/// How loading the embedding tables would go.
fn check_embeddings(file: &ModelFile<'_>, p: &str) -> (res: LoadCheck)
    ensures
        res.shows(embeddings_step(file.entries(), p@)),
{
    check_tensor(file, join(p, "embeddings.word_embeddings.weight").as_str()).followed_by(
        check_tensor(file, join(p, "embeddings.position_embeddings.weight").as_str()),
    ).followed_by(
        check_tensor(file, join(p, "embeddings.token_type_embeddings.weight").as_str()),
    ).followed_by(
        check_tensor(file, join(p, "embeddings.LayerNorm.weight").as_str()),
    ).followed_by(
        check_tensor(file, join(p, "embeddings.LayerNorm.bias").as_str()),
    )
}

/// How loading an attention block would go.
fn check_attention(file: &ModelFile<'_>, p: &str) -> (res: LoadCheck)
    ensures
        res.shows(attention_step(file.entries(), p@)),
{
    check_linear(file, join(p, "attention.self.query.weight").as_str()).followed_by(
        check_tensor(file, join(p, "attention.self.query.bias").as_str()),
    ).followed_by(
        check_linear(file, join(p, "attention.self.key.weight").as_str()),
    ).followed_by(
        check_tensor(file, join(p, "attention.self.key.bias").as_str()),
    ).followed_by(
        check_linear(file, join(p, "attention.self.value.weight").as_str()),
    ).followed_by(
        check_tensor(file, join(p, "attention.self.value.bias").as_str()),
    ).followed_by(
        check_linear(file, join(p, "attention.output.dense.weight").as_str()),
    ).followed_by(
        check_tensor(file, join(p, "attention.output.dense.bias").as_str()),
    ).followed_by(
        check_tensor(file, join(p, "attention.output.LayerNorm.weight").as_str()),
    ).followed_by(
        check_tensor(file, join(p, "attention.output.LayerNorm.bias").as_str()),
    )
}

/// How loading a feed-forward block would go.
fn check_ffn(file: &ModelFile<'_>, p: &str) -> (res: LoadCheck)
    ensures
        res.shows(ffn_step(file.entries(), p@)),
{
    check_linear(file, join(p, "intermediate.dense.weight").as_str()).followed_by(
        check_tensor(file, join(p, "intermediate.dense.bias").as_str()),
    ).followed_by(
        check_linear(file, join(p, "output.dense.weight").as_str()),
    ).followed_by(
        check_tensor(file, join(p, "output.dense.bias").as_str()),
    ).followed_by(
        check_tensor(file, join(p, "output.LayerNorm.weight").as_str()),
    ).followed_by(
        check_tensor(file, join(p, "output.LayerNorm.bias").as_str()),
    )
}

/// How loading the first `n` layers would go.
fn check_layers(file: &ModelFile<'_>, p: &str, n: usize) -> (res: LoadCheck)
    ensures
        res.shows(layers_step(file.entries(), p@, n as nat)),
{
    let head = join(p, "encoder.layer.");
    let mut check = LoadCheck::nothing();
    let mut i: usize = 0;
    while i < n
        invariant
            i <= n,
            head@ == p@ + "encoder.layer."@,
            check.shows(layers_step(file.entries(), p@, i as nat)),
        decreases n - i,
    {
        let layer_p = join_numbered(head.as_str(), i, ".");
        let next = check_attention(file, layer_p.as_str()).followed_by(
            check_ffn(file, layer_p.as_str()),
        );
        assert(next.shows(layer_step(file.entries(), layer_prefix(p@, i as nat))));
        check = check.followed_by(next);
        i = i + 1;
    }
    check
}

/// What every tensor name starts with: nothing, or the prefix and a dot.
fn dotted(prefix: &str) -> (res: String)
    ensures
        res@ == name_prefix(prefix@),
{
    proof {
        reveal_strlit("");
        assert(prefix@.len() == 0 ==> prefix@ =~= ""@);
    }
    let p = if same_text(prefix, "") {
        String::new()
    } else {
        join(prefix, ".")
    };
    assert(p@ =~= name_prefix(prefix@));
    p
}

/// The prefix that a save has: that of the wrapper, where its word embeddings
/// have it.
pub open spec fn detected_prefix(entries: Seq<EntryView>) -> Seq<char> {
    if entry_named(entries, "bert.embeddings.word_embeddings.weight"@) is Some {
        "bert"@
    } else {
        ""@
    }
}

impl<T: Copy> BertModel<T> {
    /// Whether every tensor that loading gets to has a shape that can be used.
    pub fn can_load(file: &ModelFile<'_>, config: &BertConfig<T>, prefix: &str) -> (res: bool)
        ensures
            res == model_step(
                file.entries(),
                name_prefix(prefix@),
                config.num_hidden_layers as nat,
            ).fits,
    {
        let p = dotted(prefix);
        check_embeddings(file, p.as_str()).followed_by(
            check_layers(file, p.as_str(), config.num_hidden_layers),
        ).fits
    }

    /// The prefix that a save has.
    pub fn find_prefix(file: &ModelFile<'_>) -> (res: &'static str)
        ensures
            res@ == detected_prefix(file.entries()),
    {
        if file.get("bert.embeddings.word_embeddings.weight").is_ok() {
            "bert"
        } else {
            ""
        }
    }

    /// Loads a BERT model under the prefix that the file has.
    pub fn from_safetensors_auto<F: Fn(u32) -> T>(
        file: &ModelFile<'_>,
        config: BertConfig<T>,
        decode: &F,
    ) -> (res: Result<Self>)
        requires
            forall|word: u32| call_requires(*decode, (word,)),
            model_step(
                file.entries(),
                name_prefix(detected_prefix(file.entries())),
                config.num_hidden_layers as nat,
            ).fits,
        ensures
            match model_step(
                file.entries(),
                name_prefix(detected_prefix(file.entries())),
                config.num_hidden_layers as nat,
            ).error {
                Some(e) => res == Err::<Self, Error>(e),
                None => res matches Ok(model) && model.config == config && is_model_loaded(
                    model,
                    file.entries(),
                    file.bytes(),
                    name_prefix(detected_prefix(file.entries())),
                    *decode,
                ),
            },
    {
        Self::from_safetensors(file, config, Self::find_prefix(file), decode)
    }
}

} // verus!
