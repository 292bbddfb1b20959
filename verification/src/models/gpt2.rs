//! GPT-2 decoder-only transformer weights and greedy generation.
//!
//! Supports loading from HuggingFace `GPT2LMHeadModel` safetensors saves.
//! GPT-2 uses `Conv1D` internally, which stores weights as `[in, out]`;
//! this loader transposes them to `[out, in]` at load time so the same
//! `matmul_t_b` path used by BERT can be reused throughout.
//!
//! # Generation
//!
//! [`Gpt2Model::generate_greedy`] runs greedy (argmax) decoding without a
//! KV cache: it re-runs the full forward pass for each new token.
//! This is simple and correct; add a KV cache if generation speed matters.

pub mod file;
pub mod forward;
pub mod meaning;
pub mod prefix;
pub mod same;
pub mod settings;

use vstd::prelude::*;
use crate::config::{
    is_norm_eps, or_default, read_norm_eps, read_usize_field, read_usize_field_or,
    read_usize_field_with_default, usize_field, usize_field_or,
};
use crate::error::{Error, Result};
use crate::header::EntryView;
use crate::loader::{ModelFile, entry_named, is_loaded, load_error};
use crate::models::plan::{
    LoadCheck, LoadStep, check_optional, check_tensor, join, join_numbered, load_if_present,
    no_step, numbered, optional_step, tensor_step,
};
use crate::num::{cell, lemma_cell_index, lemma_row_bounds, lemma_row_of_index};
use crate::tensor::{Tensor, lemma_product_2};
use crate::text::chars_of;

verus! {

/// Architectural hyperparameters for a GPT-2 model.
#[derive(Debug, Clone, Copy)]
pub struct Gpt2Config<T> {
    /// Embedding / hidden dimension (`n_embd`). 768 for GPT-2 small.
    pub hidden_size: usize,
    /// Number of transformer blocks (`n_layer`). 12 for GPT-2 small.
    pub num_hidden_layers: usize,
    /// Number of attention heads (`n_head`). 12 for GPT-2 small.
    pub num_attention_heads: usize,
    /// FFN inner dimension. Typically `4 * hidden_size`.
    pub intermediate_size: usize,
    /// Vocabulary size. 50257 for GPT-2.
    pub vocab_size: usize,
    /// Maximum supported sequence length. 1024 for GPT-2.
    pub max_position_embeddings: usize,
    /// LayerNorm epsilon.
    pub layer_norm_eps: T,
}

/// The hidden size that a configuration gives.
pub open spec fn hidden_size_in(json: Seq<char>) -> Option<usize> {
    usize_field_or(json, "n_embd"@, "hidden_size"@)
}

/// Why a `config.json` describes no GPT-2 model, if it does not.
pub open spec fn gpt2_config_error(json: Seq<char>) -> Option<Error> {
    if hidden_size_in(json) is None {
        Some(Error::InvalidInput("config.json: missing n_embd/hidden_size"))
    } else if usize_field_or(json, "n_layer"@, "num_hidden_layers"@) is None {
        Some(Error::InvalidInput("config.json: missing n_layer/num_hidden_layers"))
    } else if usize_field_or(json, "n_head"@, "num_attention_heads"@) is None {
        Some(Error::InvalidInput("config.json: missing n_head/num_attention_heads"))
    } else if usize_field(json, "vocab_size"@) is None {
        Some(Error::InvalidInput("config.json: missing vocab_size"))
    } else {
        None
    }
}

/// Four times the hidden size, which stands in for a missing inner size, is a
/// `usize`. A configuration that is rejected before that is not asked for it.
pub open spec fn gpt2_default_fits(json: Seq<char>) -> bool {
    usize_field_or(json, "n_layer"@, "num_hidden_layers"@) is Some && usize_field_or(
        json,
        "n_head"@,
        "num_attention_heads"@,
    ) is Some ==> (hidden_size_in(json) matches Some(hidden) ==> 4 * hidden <= usize::MAX)
}

/// The configuration is the one that a `config.json` describes.
pub open spec fn is_gpt2_config<T, P: Fn(&str) -> Option<T>>(
    config: Gpt2Config<T>,
    json: Seq<char>,
    parse: P,
    default_eps: T,
) -> bool {
    &&& hidden_size_in(json) == Some(config.hidden_size)
    &&& usize_field_or(json, "n_layer"@, "num_hidden_layers"@) == Some(config.num_hidden_layers)
    &&& usize_field_or(json, "n_head"@, "num_attention_heads"@) == Some(config.num_attention_heads)
    &&& config.intermediate_size == or_default(
        usize_field(json, "n_inner"@),
        (4 * config.hidden_size) as usize,
    )
    &&& usize_field(json, "vocab_size"@) == Some(config.vocab_size)
    &&& config.max_position_embeddings == or_default(
        usize_field_or(json, "n_positions"@, "max_position_embeddings"@),
        1024,
    )
    &&& is_norm_eps(json, parse, default_eps, config.layer_norm_eps)
}

impl<T> Gpt2Config<T> {
    /// Config for `gpt2` (117 M parameters).
    pub fn gpt2_small(layer_norm_eps: T) -> (res: Self)
        ensures
            res == (Gpt2Config {
                hidden_size: 768,
                num_hidden_layers: 12,
                num_attention_heads: 12,
                intermediate_size: 3072,
                vocab_size: 50257,
                max_position_embeddings: 1024,
                layer_norm_eps,
            }),
            res.intermediate_size == 4 * res.hidden_size,
            res.hidden_size == 64 * res.num_attention_heads,
    {
        Gpt2Config {
            hidden_size: 768,
            num_hidden_layers: 12,
            num_attention_heads: 12,
            intermediate_size: 3072,
            vocab_size: 50257,
            max_position_embeddings: 1024,
            layer_norm_eps,
        }
    }

    /// Config for `gpt2-medium` (345 M parameters).
    pub fn gpt2_medium(layer_norm_eps: T) -> (res: Self)
        ensures
            res == (Gpt2Config {
                hidden_size: 1024,
                num_hidden_layers: 24,
                num_attention_heads: 16,
                intermediate_size: 4096,
                vocab_size: 50257,
                max_position_embeddings: 1024,
                layer_norm_eps,
            }),
            res.intermediate_size == 4 * res.hidden_size,
            res.hidden_size == 64 * res.num_attention_heads,
    {
        Gpt2Config {
            hidden_size: 1024,
            num_hidden_layers: 24,
            num_attention_heads: 16,
            intermediate_size: 4096,
            vocab_size: 50257,
            max_position_embeddings: 1024,
            layer_norm_eps,
        }
    }

    /// Parses a HuggingFace `config.json` string. `parse` turns a numeral into
    /// an epsilon; `default_eps` is the epsilon where the file gives none.
    pub fn from_config_json<P: Fn(&str) -> Option<T>>(
        json: &str,
        parse: &P,
        default_eps: T,
    ) -> (res: Result<Self>)
        requires
            forall|s: &str| #[trigger] call_requires(*parse, (s,)),
            gpt2_default_fits(json@),
        ensures
            match gpt2_config_error(json@) {
                Some(e) => res == Err::<Self, Error>(e),
                None => res matches Ok(config) && is_gpt2_config(
                    config,
                    json@,
                    *parse,
                    default_eps,
                ),
            },
    {
        let chars = chars_of(json);
        let text = chars.as_slice();
        // n_embd / n_head / n_layer are HF's field names for GPT-2.
        let hidden_size: usize = match read_usize_field_or(text, "n_embd", "hidden_size") {
            Some(v) => v,
            None => {
                return Err(Error::InvalidInput("config.json: missing n_embd/hidden_size"));
            },
        };
        let num_hidden_layers: usize = match read_usize_field_or(
            text,
            "n_layer",
            "num_hidden_layers",
        ) {
            Some(v) => v,
            None => {
                return Err(Error::InvalidInput("config.json: missing n_layer/num_hidden_layers"));
            },
        };
        let num_attention_heads: usize = match read_usize_field_or(
            text,
            "n_head",
            "num_attention_heads",
        ) {
            Some(v) => v,
            None => {
                return Err(Error::InvalidInput("config.json: missing n_head/num_attention_heads"));
            },
        };
        let intermediate_size: usize = read_usize_field_with_default(
            text,
            "n_inner",
            4 * hidden_size,
        );
        let vocab_size: usize = match read_usize_field(text, "vocab_size") {
            Some(v) => v,
            None => {
                return Err(Error::InvalidInput("config.json: missing vocab_size"));
            },
        };
        let max_position_embeddings: usize = match read_usize_field_or(
            text,
            "n_positions",
            "max_position_embeddings",
        ) {
            Some(v) => v,
            None => 1024,
        };
        let layer_norm_eps = read_norm_eps(text, parse, default_eps);
        Ok(
            Gpt2Config {
                hidden_size,
                num_hidden_layers,
                num_attention_heads,
                intermediate_size,
                vocab_size,
                max_position_embeddings,
                layer_norm_eps,
            },
        )
    }
}

/// Whether a `config.json` can be parsed: four times its hidden size is a
/// `usize`.
pub fn check_gpt2_default(json: &str) -> (res: bool)
    ensures
        res == gpt2_default_fits(json@),
{
    let chars = chars_of(json);
    let text = chars.as_slice();
    let layers = read_usize_field_or(text, "n_layer", "num_hidden_layers");
    let heads = read_usize_field_or(text, "n_head", "num_attention_heads");
    if layers.is_none() || heads.is_none() {
        return true;
    }
    match read_usize_field_or(text, "n_embd", "hidden_size") {
        Some(hidden) => hidden.checked_mul(4).is_some(),
        None => true,
    }
}

// ---------------------------------------------------------------------------
// Helpers
// ---------------------------------------------------------------------------

/// The transpose of an `[m, n]` matrix.
pub open spec fn transposed<T>(elems: Seq<T>, m: int, n: int) -> Seq<T> {
    Seq::new((n * m) as nat, |c: int| cell(elems, n, c % m, c / m))
}

/// Transposing twice gives the matrix again.
pub proof fn lemma_transpose_twice<T>(elems: Seq<T>, m: int, n: int)
    requires
        0 <= m,
        0 <= n,
        elems.len() == m * n,
    ensures
        transposed(transposed(elems, m, n), n, m) == elems,
{
    let once = transposed(elems, m, n);
    let twice = transposed(once, n, m);
    assert(n * m == m * n) by (nonlinear_arith);
    assert forall|c: int| 0 <= c < m * n implies twice[c] == elems[c] by {
        lemma_row_of_index(c, m, n);
        let i = c / n;
        let j = c % n;
        lemma_cell_index(j, i, n, m);
        assert(twice[c] == cell(once, m, j, i));
        assert(once[j * m + i] == cell(elems, n, i, j));
    }
    assert(twice =~= elems);
}

/// Transposes a 2-D tensor: `[m, n]` → `[n, m]`.
pub fn transpose_2d<T: Copy>(t: &Tensor<T>) -> (res: Tensor<T>)
    requires
        t.wf(),
        t.dims().len() == 2,
    ensures
        res.wf(),
        res.dims() == seq![t.dims()[1], t.dims()[0]],
        res.elems() == transposed(t.elems(), t.dims()[0] as int, t.dims()[1] as int),
{
    let shape = *t.shape();
    let m: usize = shape.as_slice()[0];
    let n: usize = shape.as_slice()[1];
    let src = t.data();
    let len: usize = src.len();
    proof {
        lemma_product_2(t.dims());
        assert(n * m == m * n) by (nonlinear_arith);
    }
    let ghost wanted = transposed(src@, m as int, n as int);
    let mut out: Vec<T> = Vec::new();
    let mut c: usize = 0;
    while c < len
        invariant
            c <= len,
            len == src@.len(),
            len == m * n,
            len == n * m,
            wanted == transposed(src@, m as int, n as int),
            out@ == wanted.take(c as int),
        decreases len - c,
    {
        proof {
            lemma_row_of_index(c as int, n as int, m as int);
            lemma_cell_index(c as int % m as int, c as int / m as int, m as int, n as int);
            lemma_row_bounds(c as int % m as int, m as int, n as int);
        }
        let i: usize = c % m;
        let j: usize = c / m;
        out.push(src[i * n + j]);
        c = c + 1;
        assert(wanted.take(c as int) =~= wanted.take(c - 1).push(wanted[c - 1]));
    }
    proof {
        assert(wanted.take(len as int) =~= wanted);
        lemma_product_2(seq![n, m]);
    }
    Tensor::from_vec(out, &[n, m])
}

/// Columns `from` to `from + width` of a matrix with `cols` columns, row by row.
pub open spec fn columns_of<T>(
    elems: Seq<T>,
    rows: int,
    cols: int,
    from: int,
    width: int,
) -> Seq<T> {
    Seq::new((rows * width) as nat, |c: int| cell(elems, cols, c / width, from + c % width))
}

/// Columns `from` to `from + width` of a matrix with `cols` columns.
fn pick_columns<T: Copy>(
    data: &[T],
    rows: usize,
    cols: usize,
    from: usize,
    width: usize,
) -> (res: Vec<T>)
    requires
        data@.len() == rows * cols,
        from + width <= cols,
    ensures
        res@ == columns_of(data@, rows as int, cols as int, from as int, width as int),
{
    let _len: usize = data.len();
    proof {
        assert(rows * width <= rows * cols) by (nonlinear_arith)
            requires
                width <= cols,
        ;
    }
    let n: usize = rows * width;
    let ghost wanted = columns_of(data@, rows as int, cols as int, from as int, width as int);
    let mut out: Vec<T> = Vec::new();
    let mut c: usize = 0;
    while c < n
        invariant
            c <= n,
            n == rows * width,
            data@.len() == rows * cols,
            rows * cols <= usize::MAX,
            from + width <= cols,
            wanted == columns_of(data@, rows as int, cols as int, from as int, width as int),
            out@ == wanted.take(c as int),
        decreases n - c,
    {
        proof {
            lemma_row_of_index(c as int, rows as int, width as int);
            lemma_cell_index(
                c as int / width as int,
                from + c as int % width as int,
                rows as int,
                cols as int,
            );
            lemma_row_bounds(c as int / width as int, rows as int, cols as int);
        }
        let t: usize = c / width;
        let j: usize = c % width;
        out.push(data[t * cols + (from + j)]);
        c = c + 1;
        assert(wanted.take(c as int) =~= wanted.take(c - 1).push(wanted[c - 1]));
    }
    assert(wanted.take(n as int) =~= wanted);
    out
}

/// Splits a `[seq, 3*hidden]` tensor into three `[seq, hidden]` tensors (Q, K, V).
pub fn split_qkv<T: Copy>(qkv: &Tensor<T>, hidden: usize) -> (res: (
    Tensor<T>,
    Tensor<T>,
    Tensor<T>,
))
    requires
        qkv.wf(),
        qkv.dims().len() == 2,
        qkv.dims()[1] == 3 * hidden,
    ensures
        res.0.wf() && res.1.wf() && res.2.wf(),
        res.0.dims() == seq![qkv.dims()[0], hidden],
        res.1.dims() == seq![qkv.dims()[0], hidden],
        res.2.dims() == seq![qkv.dims()[0], hidden],
        res.0.elems() == columns_of(
            qkv.elems(),
            qkv.dims()[0] as int,
            3 * hidden,
            0,
            hidden as int,
        ),
        res.1.elems() == columns_of(
            qkv.elems(),
            qkv.dims()[0] as int,
            3 * hidden,
            hidden as int,
            hidden as int,
        ),
        res.2.elems() == columns_of(
            qkv.elems(),
            qkv.dims()[0] as int,
            3 * hidden,
            2 * hidden,
            hidden as int,
        ),
{
    let shape = *qkv.shape();
    let seq: usize = shape.as_slice()[0];
    let stride: usize = shape.as_slice()[1];
    let data = qkv.data();
    proof {
        lemma_product_2(qkv.dims());
        lemma_product_2(seq![seq, hidden]);
        assert(0 <= seq * hidden) by (nonlinear_arith);
    }
    let q = pick_columns(data, seq, stride, 0, hidden);
    let k = pick_columns(data, seq, stride, hidden, hidden);
    let v = pick_columns(data, seq, stride, 2 * hidden, hidden);
    (
        Tensor::from_vec(q, &[seq, hidden]),
        Tensor::from_vec(k, &[seq, hidden]),
        Tensor::from_vec(v, &[seq, hidden]),
    )
}

// ---------------------------------------------------------------------------
// Weights
// ---------------------------------------------------------------------------

/// The attention block of a layer.
pub struct Gpt2Attention<T> {
    /// Combined Q+K+V projection, `[3*H, H]`.
    pub c_attn_w: Tensor<T>,
    /// `[3*H]`.
    pub c_attn_b: Tensor<T>,
    /// Output projection, `[H, H]`.
    pub c_proj_w: Tensor<T>,
    /// `[H]`.
    pub c_proj_b: Tensor<T>,
}

/// The feed-forward block of a layer.
pub struct Gpt2Mlp<T> {
    /// `[inner, H]`.
    pub fc_w: Tensor<T>,
    /// `[inner]`.
    pub fc_b: Tensor<T>,
    /// `[H, inner]`.
    pub proj_w: Tensor<T>,
    /// `[H]`.
    pub proj_b: Tensor<T>,
}

/// One transformer block.
pub struct Gpt2Layer<T> {
    pub ln_1_w: Tensor<T>,
    pub ln_1_b: Tensor<T>,
    pub attn: Gpt2Attention<T>,
    pub ln_2_w: Tensor<T>,
    pub ln_2_b: Tensor<T>,
    pub mlp: Gpt2Mlp<T>,
}

/// A loaded GPT-2 language model.
pub struct Gpt2Model<T> {
    pub config: Gpt2Config<T>,
    /// Token embedding, `[vocab, H]`.
    pub wte: Tensor<T>,
    /// Position embedding, `[max_pos, H]`.
    pub wpe: Tensor<T>,
    pub layers: Vec<Gpt2Layer<T>>,
    pub ln_f_w: Tensor<T>,
    pub ln_f_b: Tensor<T>,
    /// Output projection, `[vocab, H]`; often the token embedding again.
    pub lm_head: Tensor<T>,
    /// EOS token ID used by [`Gpt2Model::generate_greedy`].
    pub eos_token_id: Option<u32>,
}

/// Loading a weight that is stored `[in, out]`.
pub open spec fn conv_step(entries: Seq<EntryView>, name: Seq<char>) -> LoadStep {
    let step = tensor_step(entries, name);
    LoadStep {
        error: step.error,
        fits: step.fits && (step.error is None ==> (entry_named(entries, name) matches Some(entry)
            && entry.shape.len() == 2)),
    }
}

/// The weight is the transpose of the `[in, out]` matrix of the file.
pub open spec fn is_conv_loaded<T, F: Fn(u32) -> T>(
    weight: Tensor<T>,
    entries: Seq<EntryView>,
    bytes: Seq<u8>,
    name: Seq<char>,
    decode: F,
) -> bool {
    weight.wf() && exists|stored: Tensor<T>| #[trigger]
        is_loaded(stored, entries, bytes, name, decode) && weight.dims() == seq![
            stored.dims()[1],
            stored.dims()[0],
        ] && weight.elems() == transposed(
            stored.elems(),
            stored.dims()[0] as int,
            stored.dims()[1] as int,
        )
}

/// Loads a weight that is stored `[in, out]` and transposes it to `[out, in]`.
fn load_conv<T: Copy, F: Fn(u32) -> T>(file: &ModelFile<'_>, name: &str, decode: &F) -> (res:
    Result<Tensor<T>>)
    requires
        forall|word: u32| call_requires(*decode, (word,)),
        conv_step(file.entries(), name@).fits,
    ensures
        match conv_step(file.entries(), name@).error {
            Some(e) => res == Err::<Tensor<T>, Error>(e),
            None => res matches Ok(weight) && is_conv_loaded(
                weight,
                file.entries(),
                file.bytes(),
                name@,
                *decode,
            ),
        },
{
    match file.load(name, decode) {
        Ok(stored) => Ok(transpose_2d(&stored)),
        Err(e) => Err(e),
    }
}

/// Loading the attention block whose names start with `p`.
pub open spec fn attention_step(entries: Seq<EntryView>, p: Seq<char>) -> LoadStep {
    conv_step(entries, p + "attn.c_attn.weight"@).followed_by(
        tensor_step(entries, p + "attn.c_attn.bias"@),
    ).followed_by(
        conv_step(entries, p + "attn.c_proj.weight"@),
    ).followed_by(
        tensor_step(entries, p + "attn.c_proj.bias"@),
    )
}

/// Every weight of the attention block is that of the file.
pub open spec fn is_attention_loaded<T, F: Fn(u32) -> T>(
    attn: Gpt2Attention<T>,
    entries: Seq<EntryView>,
    bytes: Seq<u8>,
    p: Seq<char>,
    decode: F,
) -> bool {
    &&& is_conv_loaded(attn.c_attn_w, entries, bytes, p + "attn.c_attn.weight"@, decode)
    &&& is_loaded(attn.c_attn_b, entries, bytes, p + "attn.c_attn.bias"@, decode)
    &&& is_conv_loaded(attn.c_proj_w, entries, bytes, p + "attn.c_proj.weight"@, decode)
    &&& is_loaded(attn.c_proj_b, entries, bytes, p + "attn.c_proj.bias"@, decode)
}

/// Loading the feed-forward block whose names start with `p`.
pub open spec fn mlp_step(entries: Seq<EntryView>, p: Seq<char>) -> LoadStep {
    conv_step(entries, p + "mlp.c_fc.weight"@).followed_by(
        tensor_step(entries, p + "mlp.c_fc.bias"@),
    ).followed_by(
        conv_step(entries, p + "mlp.c_proj.weight"@),
    ).followed_by(
        tensor_step(entries, p + "mlp.c_proj.bias"@),
    )
}

/// Every weight of the feed-forward block is that of the file.
pub open spec fn is_mlp_loaded<T, F: Fn(u32) -> T>(
    mlp: Gpt2Mlp<T>,
    entries: Seq<EntryView>,
    bytes: Seq<u8>,
    p: Seq<char>,
    decode: F,
) -> bool {
    &&& is_conv_loaded(mlp.fc_w, entries, bytes, p + "mlp.c_fc.weight"@, decode)
    &&& is_loaded(mlp.fc_b, entries, bytes, p + "mlp.c_fc.bias"@, decode)
    &&& is_conv_loaded(mlp.proj_w, entries, bytes, p + "mlp.c_proj.weight"@, decode)
    &&& is_loaded(mlp.proj_b, entries, bytes, p + "mlp.c_proj.bias"@, decode)
}

/// What the names of the tensors of a layer start with.
pub open spec fn layer_prefix(p: Seq<char>, i: nat) -> Seq<char> {
    numbered(p + "h."@, i, "."@)
}

/// Loading the layer whose names start with `p`.
pub open spec fn layer_step(entries: Seq<EntryView>, p: Seq<char>) -> LoadStep {
    tensor_step(entries, p + "ln_1.weight"@).followed_by(
        tensor_step(entries, p + "ln_1.bias"@),
    ).followed_by(attention_step(entries, p)).followed_by(
        tensor_step(entries, p + "ln_2.weight"@),
    ).followed_by(tensor_step(entries, p + "ln_2.bias"@)).followed_by(mlp_step(entries, p))
}

/// Every weight of the layer is that of the file.
pub open spec fn is_layer_loaded<T, F: Fn(u32) -> T>(
    layer: Gpt2Layer<T>,
    entries: Seq<EntryView>,
    bytes: Seq<u8>,
    p: Seq<char>,
    decode: F,
) -> bool {
    &&& is_loaded(layer.ln_1_w, entries, bytes, p + "ln_1.weight"@, decode)
    &&& is_loaded(layer.ln_1_b, entries, bytes, p + "ln_1.bias"@, decode)
    &&& is_attention_loaded(layer.attn, entries, bytes, p, decode)
    &&& is_loaded(layer.ln_2_w, entries, bytes, p + "ln_2.weight"@, decode)
    &&& is_loaded(layer.ln_2_b, entries, bytes, p + "ln_2.bias"@, decode)
    &&& is_mlp_loaded(layer.mlp, entries, bytes, p, decode)
}

/// Loading the first `n` layers.
pub open spec fn layers_step(entries: Seq<EntryView>, p: Seq<char>, n: nat) -> LoadStep
    decreases n,
{
    if n == 0 {
        no_step()
    } else {
        layers_step(entries, p, (n - 1) as nat).followed_by(
            layer_step(entries, layer_prefix(p, (n - 1) as nat)),
        )
    }
}

/// Saves of the bare transformer have no prefix; saves of the language model
/// have one.
pub open spec fn detected_prefix(entries: Seq<EntryView>) -> Seq<char> {
    if entry_named(entries, "transformer.wte.weight"@) is Some {
        "transformer."@
    } else {
        Seq::empty()
    }
}

/// Loading a model with `n` layers.
pub open spec fn model_step(entries: Seq<EntryView>, n: nat) -> LoadStep {
    let p = detected_prefix(entries);
    tensor_step(entries, p + "wte.weight"@).followed_by(
        tensor_step(entries, p + "wpe.weight"@),
    ).followed_by(layers_step(entries, p, n)).followed_by(
        tensor_step(entries, p + "ln_f.weight"@),
    ).followed_by(tensor_step(entries, p + "ln_f.bias"@)).followed_by(
        optional_step(entries, "lm_head.weight"@),
    )
}

/// Every weight of the model is the tensor of the file that belongs there. The
/// output projection is the token embedding where the file holds none.
pub open spec fn is_model_loaded<T, F: Fn(u32) -> T>(
    model: Gpt2Model<T>,
    entries: Seq<EntryView>,
    bytes: Seq<u8>,
    decode: F,
) -> bool {
    let p = detected_prefix(entries);
    &&& is_loaded(model.wte, entries, bytes, p + "wte.weight"@, decode)
    &&& is_loaded(model.wpe, entries, bytes, p + "wpe.weight"@, decode)
    &&& model.layers@.len() == model.config.num_hidden_layers
    &&& forall|i: int|
        0 <= i < model.layers@.len() ==> is_layer_loaded(
            #[trigger] model.layers@[i],
            entries,
            bytes,
            layer_prefix(p, i as nat),
            decode,
        )
    &&& is_loaded(model.ln_f_w, entries, bytes, p + "ln_f.weight"@, decode)
    &&& is_loaded(model.ln_f_b, entries, bytes, p + "ln_f.bias"@, decode)
    &&& if load_error(entries, "lm_head.weight"@) is None {
        is_loaded(model.lm_head, entries, bytes, "lm_head.weight"@, decode)
    } else {
        model.lm_head.dims() == model.wte.dims() && model.lm_head.elems() == model.wte.elems()
            && model.lm_head.wf()
    }
    &&& model.eos_token_id == Some(50256u32)
}

/// A load that fails does so however many layers follow.
proof fn lemma_layers_step(entries: Seq<EntryView>, p: Seq<char>, k: nat, n: nat)
    requires
        k <= n,
    ensures
        layers_step(entries, p, k).error is Some ==> layers_step(entries, p, n).error
            == layers_step(entries, p, k).error,
        layers_step(entries, p, n).fits ==> layers_step(entries, p, k).fits,
    decreases n,
{
    if k < n {
        lemma_layers_step(entries, p, k, (n - 1) as nat);
    }
}

/// Loads the attention block whose names start with `p`.
fn load_attention<T: Copy, F: Fn(u32) -> T>(file: &ModelFile<'_>, p: &str, decode: &F) -> (res: Result<
    Gpt2Attention<T>,
>)
    requires
        forall|word: u32| call_requires(*decode, (word,)),
        attention_step(file.entries(), p@).fits,
    ensures
        match attention_step(file.entries(), p@).error {
            Some(e) => res == Err::<Gpt2Attention<T>, Error>(e),
            None => res matches Ok(attn) && is_attention_loaded(
                attn,
                file.entries(),
                file.bytes(),
                p@,
                *decode,
            ),
        },
{
    let c_attn_w = match load_conv(file, join(p, "attn.c_attn.weight").as_str(), decode) {
        Ok(t) => t,
        Err(e) => {
            return Err(e);
        },
    };
    let c_attn_b = match file.load(join(p, "attn.c_attn.bias").as_str(), decode) {
        Ok(t) => t,
        Err(e) => {
            return Err(e);
        },
    };
    let c_proj_w = match load_conv(file, join(p, "attn.c_proj.weight").as_str(), decode) {
        Ok(t) => t,
        Err(e) => {
            return Err(e);
        },
    };
    let c_proj_b = match file.load(join(p, "attn.c_proj.bias").as_str(), decode) {
        Ok(t) => t,
        Err(e) => {
            return Err(e);
        },
    };
    Ok(Gpt2Attention { c_attn_w, c_attn_b, c_proj_w, c_proj_b })
}

/// Loads the feed-forward block whose names start with `p`.
fn load_mlp<T: Copy, F: Fn(u32) -> T>(file: &ModelFile<'_>, p: &str, decode: &F) -> (res: Result<
    Gpt2Mlp<T>,
>)
    requires
        forall|word: u32| call_requires(*decode, (word,)),
        mlp_step(file.entries(), p@).fits,
    ensures
        match mlp_step(file.entries(), p@).error {
            Some(e) => res == Err::<Gpt2Mlp<T>, Error>(e),
            None => res matches Ok(mlp) && is_mlp_loaded(
                mlp,
                file.entries(),
                file.bytes(),
                p@,
                *decode,
            ),
        },
{
    let fc_w = match load_conv(file, join(p, "mlp.c_fc.weight").as_str(), decode) {
        Ok(t) => t,
        Err(e) => {
            return Err(e);
        },
    };
    let fc_b = match file.load(join(p, "mlp.c_fc.bias").as_str(), decode) {
        Ok(t) => t,
        Err(e) => {
            return Err(e);
        },
    };
    let proj_w = match load_conv(file, join(p, "mlp.c_proj.weight").as_str(), decode) {
        Ok(t) => t,
        Err(e) => {
            return Err(e);
        },
    };
    let proj_b = match file.load(join(p, "mlp.c_proj.bias").as_str(), decode) {
        Ok(t) => t,
        Err(e) => {
            return Err(e);
        },
    };
    Ok(Gpt2Mlp { fc_w, fc_b, proj_w, proj_b })
}

/// Loads the layer whose names start with `p`.
fn load_layer<T: Copy, F: Fn(u32) -> T>(file: &ModelFile<'_>, p: &str, decode: &F) -> (res: Result<
    Gpt2Layer<T>,
>)
    requires
        forall|word: u32| call_requires(*decode, (word,)),
        layer_step(file.entries(), p@).fits,
    ensures
        match layer_step(file.entries(), p@).error {
            Some(e) => res == Err::<Gpt2Layer<T>, Error>(e),
            None => res matches Ok(layer) && is_layer_loaded(
                layer,
                file.entries(),
                file.bytes(),
                p@,
                *decode,
            ),
        },
{
    let ln_1_w = match file.load(join(p, "ln_1.weight").as_str(), decode) {
        Ok(t) => t,
        Err(e) => {
            return Err(e);
        },
    };
    let ln_1_b = match file.load(join(p, "ln_1.bias").as_str(), decode) {
        Ok(t) => t,
        Err(e) => {
            return Err(e);
        },
    };
    let attn = match load_attention(file, p, decode) {
        Ok(t) => t,
        Err(e) => {
            return Err(e);
        },
    };
    let ln_2_w = match file.load(join(p, "ln_2.weight").as_str(), decode) {
        Ok(t) => t,
        Err(e) => {
            return Err(e);
        },
    };
    let ln_2_b = match file.load(join(p, "ln_2.bias").as_str(), decode) {
        Ok(t) => t,
        Err(e) => {
            return Err(e);
        },
    };
    let mlp = match load_mlp(file, p, decode) {
        Ok(t) => t,
        Err(e) => {
            return Err(e);
        },
    };
    Ok(Gpt2Layer { ln_1_w, ln_1_b, attn, ln_2_w, ln_2_b, mlp })
}

impl<T: Copy> Gpt2Model<T> {
    /// Loads a GPT-2 model from a safetensors file. `decode` turns the bit
    /// pattern of an element into the element.
    ///
    /// Supports both `GPT2LMHeadModel` saves (prefix `transformer.`) and bare
    /// `GPT2Model` saves (no prefix). The LM head is tied to `wte` when
    /// `lm_head.weight` is absent (GPT-2's default weight-tying).
    pub fn from_safetensors<F: Fn(u32) -> T>(
        file: &ModelFile<'_>,
        config: Gpt2Config<T>,
        decode: &F,
    ) -> (res: Result<Self>)
        requires
            forall|word: u32| call_requires(*decode, (word,)),
            model_step(file.entries(), config.num_hidden_layers as nat).fits,
        ensures
            match model_step(file.entries(), config.num_hidden_layers as nat).error {
                Some(e) => res == Err::<Self, Error>(e),
                None => res matches Ok(model) && model.config == config && is_model_loaded(
                    model,
                    file.entries(),
                    file.bytes(),
                    *decode,
                ),
            },
    {
        let p: &str = if file.get("transformer.wte.weight").is_ok() {
            "transformer."
        } else {
            ""
        };
        proof {
            reveal_strlit("");
            assert(p@ =~= detected_prefix(file.entries()));
        }
        let wte = match file.load(join(p, "wte.weight").as_str(), decode) {
            Ok(t) => t,
            Err(e) => {
                return Err(e);
            },
        };
        let wpe = match file.load(join(p, "wpe.weight").as_str(), decode) {
            Ok(t) => t,
            Err(e) => {
                return Err(e);
            },
        };
        let head = join(p, "h.");
        let n: usize = config.num_hidden_layers;
        let mut layers: Vec<Gpt2Layer<T>> = Vec::new();
        let mut i: usize = 0;
        while i < n
            invariant
                i <= n,
                n == config.num_hidden_layers,
                p@ == detected_prefix(file.entries()),
                head@ == p@ + "h."@,
                forall|word: u32| call_requires(*decode, (word,)),
                tensor_step(file.entries(), p@ + "wte.weight"@).error is None,
                tensor_step(file.entries(), p@ + "wpe.weight"@).error is None,
                model_step(file.entries(), n as nat).fits,
                layers_step(file.entries(), p@, i as nat).error is None,
                layers@.len() == i,
                forall|k: int|
                    0 <= k < i ==> is_layer_loaded(
                        #[trigger] layers@[k],
                        file.entries(),
                        file.bytes(),
                        layer_prefix(p@, k as nat),
                        *decode,
                    ),
            decreases n - i,
        {
            proof {
                lemma_layers_step(file.entries(), p@, (i + 1) as nat, n as nat);
            }
            let layer_p = join_numbered(head.as_str(), i, ".");
            assert(layer_p@ == layer_prefix(p@, i as nat));
            match load_layer(file, layer_p.as_str(), decode) {
                Ok(layer) => {
                    layers.push(layer);
                },
                Err(e) => {
                    return Err(e);
                },
            }
            i = i + 1;
        }
        let ln_f_w = match file.load(join(p, "ln_f.weight").as_str(), decode) {
            Ok(t) => t,
            Err(e) => {
                return Err(e);
            },
        };
        let ln_f_b = match file.load(join(p, "ln_f.bias").as_str(), decode) {
            Ok(t) => t,
            Err(e) => {
                return Err(e);
            },
        };
        // lm_head may or may not be saved; it is tied to wte if absent.
        let lm_head = match load_if_present(file, "lm_head.weight", decode) {
            Some(tensor) => tensor,
            None => wte.clone(),
        };
        Ok(
            Gpt2Model {
                config,
                wte,
                wpe,
                layers,
                ln_f_w,
                ln_f_b,
                lm_head,
                eos_token_id: Some(50256),
            },
        )
    }
}

// ---------------------------------------------------------------------------
// Checking before loading
// ---------------------------------------------------------------------------

/// How loading a weight that is stored `[in, out]` would go.
fn check_conv(file: &ModelFile<'_>, name: &str) -> (res: LoadCheck)
    ensures
        res.shows(conv_step(file.entries(), name@)),
{
    let check = check_tensor(file, name);
    match file.get(name) {
        Ok(view) => LoadCheck {
            failed: check.failed,
            fits: check.fits && (check.failed || view.shape.len() == 2),
        },
        Err(_) => check,
    }
}

/// How loading a layer would go.
fn check_layer(file: &ModelFile<'_>, p: &str) -> (res: LoadCheck)
    ensures
        res.shows(layer_step(file.entries(), p@)),
{
    let attn = check_conv(file, join(p, "attn.c_attn.weight").as_str()).followed_by(
        check_tensor(file, join(p, "attn.c_attn.bias").as_str()),
    ).followed_by(
        check_conv(file, join(p, "attn.c_proj.weight").as_str()),
    ).followed_by(
        check_tensor(file, join(p, "attn.c_proj.bias").as_str()),
    );
    assert(attn.shows(attention_step(file.entries(), p@)));
    let mlp = check_conv(file, join(p, "mlp.c_fc.weight").as_str()).followed_by(
        check_tensor(file, join(p, "mlp.c_fc.bias").as_str()),
    ).followed_by(
        check_conv(file, join(p, "mlp.c_proj.weight").as_str()),
    ).followed_by(
        check_tensor(file, join(p, "mlp.c_proj.bias").as_str()),
    );
    assert(mlp.shows(mlp_step(file.entries(), p@)));
    check_tensor(file, join(p, "ln_1.weight").as_str()).followed_by(
        check_tensor(file, join(p, "ln_1.bias").as_str()),
    ).followed_by(
        attn,
    ).followed_by(
        check_tensor(file, join(p, "ln_2.weight").as_str()),
    ).followed_by(
        check_tensor(file, join(p, "ln_2.bias").as_str()),
    ).followed_by(
        mlp,
    )
}

/// How loading the first `n` layers would go.
fn check_layers(file: &ModelFile<'_>, p: &str, n: usize) -> (res: LoadCheck)
    ensures
        res.shows(layers_step(file.entries(), p@, n as nat)),
{
    let head = join(p, "h.");
    let mut check = LoadCheck::nothing();
    let mut i: usize = 0;
    while i < n
        invariant
            i <= n,
            head@ == p@ + "h."@,
            check.shows(layers_step(file.entries(), p@, i as nat)),
        decreases n - i,
    {
        let layer_p = join_numbered(head.as_str(), i, ".");
        assert(layer_p@ == layer_prefix(p@, i as nat));
        check = check.followed_by(check_layer(file, layer_p.as_str()));
        i = i + 1;
    }
    check
}

impl<T: Copy> Gpt2Model<T> {
    /// Whether every tensor that loading gets to has a shape that can be used.
    pub fn can_load(file: &ModelFile<'_>, config: &Gpt2Config<T>) -> (res: bool)
        ensures
            res == model_step(file.entries(), config.num_hidden_layers as nat).fits,
    {
        let p: &str = if file.get("transformer.wte.weight").is_ok() {
            "transformer."
        } else {
            ""
        };
        proof {
            reveal_strlit("");
            assert(p@ =~= detected_prefix(file.entries()));
        }
        let layers = check_layers(file, p, config.num_hidden_layers);
        check_tensor(file, join(p, "wte.weight").as_str()).followed_by(
            check_tensor(file, join(p, "wpe.weight").as_str()),
        ).followed_by(
            layers,
        ).followed_by(
            check_tensor(file, join(p, "ln_f.weight").as_str()),
        ).followed_by(
            check_tensor(file, join(p, "ln_f.bias").as_str()),
        ).followed_by(
            check_optional(file, "lm_head.weight"),
        ).fits
    }
}

} // verus!
