//! Running a BERT encoder.

use vstd::prelude::*;
use core::ops::{Add, Mul};
use crate::error::{Error, Result};
use crate::models::bert::{BertConfig, BertLayer, BertModel, LinearWeight};
use crate::models::forward::{
    check_ids, check_matrix, check_vector, ids_below, is_lookup, is_mapped, is_matrix, is_sum,
    is_vector, position_ids, positions,
};
use crate::num::{can_add, can_multiply};
use crate::ops::attention::{
    heads_divide, is_attention, is_mean, mean_pool, multi_head_attention_from_qkv, pooled_sums,
    unmasked_count,
};
use crate::ops::embedding::embedding;
use crate::ops::layernorm::{is_layer_norm, is_row_norm, layer_norm_rows};
use crate::ops::linear::{linear, linear_gives};
use crate::ops::quantized::{linear_i8, linear_i8_gives, linear_u8, linear_u8_gives};
use crate::ops::softmax::is_row_softmax;
use crate::tensor::{Tensor, lemma_product_2};
use crate::tokenizer::{EncodedInput, WordPieceTokenizer, sentence_ids};
use crate::tokenizer::basic::basic_words;

verus! {

/// The arithmetic of an encoder that the element type does not have.
pub struct EncoderKernels<N, S, G, A> {
    /// Layer normalization of one row: row, scale, offset, epsilon. See
    /// [`layer_norm_row`](crate::ops::layernorm::layer_norm_row).
    pub norm: N,
    /// Softmax of one row. See [`softmax_row`](crate::ops::softmax::softmax_row).
    pub softmax: S,
    /// Activation of one element.
    pub activation: G,
    /// What the scores of heads of a given size are scaled by.
    pub score_factor: A,
}

/// The kernels can be called wherever a forward pass calls them.
pub open spec fn kernels_fit<
    T,
    N: Fn(&[T], &[T], &[T], T) -> Vec<T>,
    S: Fn(&[T]) -> Vec<T>,
    G: Fn(T) -> T,
    A: Fn(usize) -> T,
>(kernels: EncoderKernels<N, S, G, A>) -> bool {
    &&& is_row_norm(kernels.norm)
    &&& is_row_softmax(kernels.softmax)
    &&& forall|v: T| #[trigger] call_requires(kernels.activation, (v,))
    &&& forall|n: usize| #[trigger] call_requires(kernels.score_factor, (n,))
}

/// The element type can do the arithmetic of a forward pass.
pub open spec fn elements_fit<
    T: From<i8> + From<i16> + Add<Output = T> + Mul<Output = T>,
>() -> bool {
    &&& can_add::<T>()
    &&& can_multiply::<T>()
    &&& forall|v: i8| #[trigger] call_requires(<T as From<i8>>::from, (v,))
    &&& forall|v: i16| #[trigger] call_requires(<T as From<i16>>::from, (v,))
}

impl<T> LinearWeight<T> {
    /// The shape of the matrix.
    pub open spec fn dims(&self) -> Seq<usize> {
        match self {
            LinearWeight::F32(w) => w.dims(),
            LinearWeight::I8(w) => w.dims(),
            LinearWeight::U8(w) => w.dims(),
        }
    }

    /// A matrix with `m` rows and `n` columns.
    pub open spec fn is_shaped(&self, m: usize, n: usize) -> bool {
        &&& self.dims() == seq![m, n]
        &&& self matches LinearWeight::F32(w) ==> w.wf()
    }

    /// Whether this is a matrix with `m` rows and `n` columns.
    pub fn check_shape(&self, m: usize, n: usize) -> (res: bool)
        ensures
            res == self.is_shaped(m, n),
    {
        let shape = match self {
            LinearWeight::F32(w) => {
                if !w.is_consistent() {
                    return false;
                }
                *w.shape()
            },
            LinearWeight::I8(w) => *w.shape(),
            LinearWeight::U8(w) => *w.shape(),
        };
        let dims = shape.as_slice();
        let res = dims.len() == 2 && dims[0] == m && dims[1] == n;
        assert(dims@.len() == 2 ==> dims@ =~= seq![dims@[0], dims@[1]]);
        assert(seq![m, n][0] == m && seq![m, n][1] == n);
        res
    }
}

/// `out` may be `x @ W^T + b`, in the precision of `W`.
pub open spec fn is_weighted<
    T: Default + From<i8> + From<i16> + Add<Output = T> + Mul<Output = T>,
>(out: Tensor<T>, x: Tensor<T>, weight: LinearWeight<T>, bias: Tensor<T>) -> bool {
    &&& out.wf()
    &&& out.dims() == seq![x.dims()[0], weight.dims()[0]]
    &&& match weight {
        LinearWeight::F32(w) => linear_gives(
            x.elems(),
            x.dims()[0] as int,
            &w,
            Some(&bias),
            out.elems(),
        ),
        LinearWeight::I8(w) => linear_i8_gives(&x, &w, Some(&bias), out.elems()),
        LinearWeight::U8(w) => linear_u8_gives(&x, &w, Some(&bias), out.elems()),
    }
}

/// Applies `y = x @ W^T + b`, in the precision of `W`.
pub fn linear_weight<
    T: Copy + Default + From<i8> + From<i16> + Add<Output = T> + Mul<Output = T>,
>(x: &Tensor<T>, weight: &LinearWeight<T>, bias: &Tensor<T>) -> (res: Tensor<T>)
    requires
        x.wf(),
        x.dims().len() == 2,
        weight.dims().len() == 2,
        weight.is_shaped(weight.dims()[0], x.dims()[1]),
        is_vector(*bias, weight.dims()[0]),
        weight.dims()[0] > 0,
        x.dims()[0] * weight.dims()[0] <= usize::MAX,
        elements_fit::<T>(),
    ensures
        is_weighted(res, *x, *weight, *bias),
{
    match weight {
        LinearWeight::F32(w) => linear(x, w, Some(bias)),
        LinearWeight::I8(w) => linear_i8(x, w, Some(bias)),
        LinearWeight::U8(w) => linear_u8(x, w, Some(bias)),
    }
}

/// The weights of a layer belong together, for a hidden size of `hidden`.
pub open spec fn layer_fits<T>(layer: BertLayer<T>, hidden: usize) -> bool {
    let s = layer.attention.self_attn;
    let a = layer.attention;
    let f = layer.ffn;
    &&& s.wq.is_shaped(hidden, hidden)
    &&& is_vector(s.bq, hidden)
    &&& s.wk.is_shaped(hidden, hidden)
    &&& is_vector(s.bk, hidden)
    &&& s.wv.is_shaped(hidden, hidden)
    &&& is_vector(s.bv, hidden)
    &&& a.wo.is_shaped(hidden, hidden)
    &&& is_vector(a.bo, hidden)
    &&& is_vector(a.ln_gamma, hidden)
    &&& is_vector(a.ln_beta, hidden)
    &&& f.b_inter.dims().len() == 1
    &&& f.b_inter.dims()[0] > 0
    &&& is_vector(f.b_inter, f.b_inter.dims()[0])
    &&& f.w_inter.is_shaped(f.b_inter.dims()[0], hidden)
    &&& f.w_out.is_shaped(hidden, f.b_inter.dims()[0])
    &&& is_vector(f.b_out, hidden)
    &&& is_vector(f.ln_gamma, hidden)
    &&& is_vector(f.ln_beta, hidden)
}

/// Whether the weights of a layer belong together.
fn check_layer<T>(layer: &BertLayer<T>, hidden: usize) -> (res: bool)
    ensures
        res == layer_fits(*layer, hidden),
{
    let s = &layer.attention.self_attn;
    let a = &layer.attention;
    let f = &layer.ffn;
    let inter_shape = *f.b_inter.shape();
    let inter_dims = inter_shape.as_slice();
    if inter_dims.len() != 1 {
        return false;
    }
    let inter: usize = inter_dims[0];
    s.wq.check_shape(hidden, hidden) && check_vector(&s.bq, hidden) && s.wk.check_shape(
        hidden,
        hidden,
    ) && check_vector(&s.bk, hidden) && s.wv.check_shape(hidden, hidden) && check_vector(
        &s.bv,
        hidden,
    ) && a.wo.check_shape(hidden, hidden) && check_vector(&a.bo, hidden) && check_vector(
        &a.ln_gamma,
        hidden,
    ) && check_vector(&a.ln_beta, hidden) && inter > 0 && check_vector(&f.b_inter, inter)
        && f.w_inter.check_shape(inter, hidden) && f.w_out.check_shape(hidden, inter)
        && check_vector(&f.b_out, hidden) && check_vector(&f.ln_gamma, hidden) && check_vector(
        &f.ln_beta,
        hidden,
    )
}

/// What a layer computes on the way.
pub struct LayerTrace<T> {
    pub q: Tensor<T>,
    pub k: Tensor<T>,
    pub v: Tensor<T>,
    pub factor: T,
    pub heads: Tensor<T>,
    pub attn: Tensor<T>,
    pub attn_sum: Tensor<T>,
    pub post_attn: Tensor<T>,
    pub inter: Tensor<T>,
    pub active: Tensor<T>,
    pub proj: Tensor<T>,
    pub ffn_sum: Tensor<T>,
}

/// A layer may make `out` of `x`, by way of `t`: attention, its output
/// projection, the residual and its normalization, then the feed-forward
/// block, the residual and its normalization.
pub open spec fn layer_gives<
    T: Default + From<i8> + From<i16> + Add<Output = T> + Mul<Output = T>,
    N: Fn(&[T], &[T], &[T], T) -> Vec<T>,
    S: Fn(&[T]) -> Vec<T>,
    G: Fn(T) -> T,
    A: Fn(usize) -> T,
>(
    out: Tensor<T>,
    x: Tensor<T>,
    layer: BertLayer<T>,
    config: BertConfig<T>,
    kernels: EncoderKernels<N, S, G, A>,
    t: LayerTrace<T>,
) -> bool {
    let s = layer.attention.self_attn;
    let a = layer.attention;
    let f = layer.ffn;
    let head_dim = (x.dims()[1] / config.num_attention_heads) as usize;
    &&& is_weighted(t.q, x, s.wq, s.bq)
    &&& is_weighted(t.k, x, s.wk, s.bk)
    &&& is_weighted(t.v, x, s.wv, s.bv)
    &&& call_ensures(kernels.score_factor, (head_dim,), t.factor)
    &&& t.heads.wf()
    &&& t.heads.dims() == t.q.dims()
    &&& is_attention(
        t.heads.elems(),
        t.q.elems(),
        t.k.elems(),
        t.v.elems(),
        x.dims()[0],
        config.num_attention_heads as int,
        head_dim as int,
        t.factor,
        kernels.softmax,
    )
    &&& is_weighted(t.attn, t.heads, a.wo, a.bo)
    &&& is_sum(t.attn_sum, x, t.attn)
    &&& is_layer_norm(
        t.post_attn,
        t.attn_sum,
        a.ln_gamma,
        a.ln_beta,
        config.layer_norm_eps,
        kernels.norm,
    )
    &&& is_weighted(t.inter, t.post_attn, f.w_inter, f.b_inter)
    &&& is_mapped(t.active, t.inter, kernels.activation)
    &&& is_weighted(t.proj, t.active, f.w_out, f.b_out)
    &&& is_sum(t.ffn_sum, t.post_attn, t.proj)
    &&& is_layer_norm(
        out,
        t.ffn_sum,
        f.ln_gamma,
        f.ln_beta,
        config.layer_norm_eps,
        kernels.norm,
    )
}

/// A layer may make `out` of `x`.
pub open spec fn layer_may_give<
    T: Default + From<i8> + From<i16> + Add<Output = T> + Mul<Output = T>,
    N: Fn(&[T], &[T], &[T], T) -> Vec<T>,
    S: Fn(&[T]) -> Vec<T>,
    G: Fn(T) -> T,
    A: Fn(usize) -> T,
>(
    out: Tensor<T>,
    x: Tensor<T>,
    layer: BertLayer<T>,
    config: BertConfig<T>,
    kernels: EncoderKernels<N, S, G, A>,
) -> bool {
    exists|t: LayerTrace<T>| #[trigger] layer_gives(out, x, layer, config, kernels, t)
}

/// Runs one layer.
fn encoder_layer_forward<
    T: Copy + Default + From<i8> + From<i16> + Add<Output = T> + Mul<Output = T>,
    N: Fn(&[T], &[T], &[T], T) -> Vec<T>,
    S: Fn(&[T]) -> Vec<T>,
    G: Fn(T) -> T,
    A: Fn(usize) -> T,
>(
    x: &Tensor<T>,
    layer: &BertLayer<T>,
    config: &BertConfig<T>,
    kernels: &EncoderKernels<N, S, G, A>,
) -> (res: Tensor<T>)
    requires
        x.wf(),
        x.dims().len() == 2,
        x.dims()[0] > 0,
        x.dims()[1] > 0,
        layer_fits(*layer, x.dims()[1]),
        heads_divide(x.dims()[1], config.num_attention_heads),
        x.dims()[0] * x.dims()[0] <= usize::MAX,
        x.dims()[0] * layer.ffn.b_inter.dims()[0] <= usize::MAX,
        elements_fit::<T>(),
        kernels_fit(*kernels),
    ensures
        res.wf(),
        res.dims() == x.dims(),
        layer_may_give(res, *x, *layer, *config, *kernels),
{
    let shape = *x.shape();
    let hidden: usize = shape.as_slice()[1];
    proof {
        lemma_product_2(x.dims());
    }
    let s = &layer.attention.self_attn;
    // Attention block.
    let q = linear_weight(x, &s.wq, &s.bq);
    let k = linear_weight(x, &s.wk, &s.bk);
    let v = linear_weight(x, &s.wv, &s.bv);
    assert(q.dims() =~= x.dims());
    assert(k.dims() =~= x.dims());
    assert(v.dims() =~= x.dims());
    let head_dim: usize = hidden / config.num_attention_heads;
    let score_factor = &kernels.score_factor;
    let factor = score_factor(head_dim);
    let heads = multi_head_attention_from_qkv(
        &q,
        &k,
        &v,
        config.num_attention_heads,
        factor,
        &kernels.softmax,
    );
    let attn = linear_weight(&heads, &layer.attention.wo, &layer.attention.bo);
    assert(attn.dims() =~= x.dims());
    let attn_sum = crate::ops::elementwise::add(x, &attn);
    let post_attn = layer_norm_rows(
        &attn_sum,
        &layer.attention.ln_gamma,
        &layer.attention.ln_beta,
        config.layer_norm_eps,
        &kernels.norm,
    );
    // Feed-forward block.
    let inter = linear_weight(&post_attn, &layer.ffn.w_inter, &layer.ffn.b_inter);
    let active = crate::ops::elementwise::map(&inter, &kernels.activation);
    let proj = linear_weight(&active, &layer.ffn.w_out, &layer.ffn.b_out);
    assert(proj.dims() =~= x.dims());
    let ffn_sum = crate::ops::elementwise::add(&post_attn, &proj);
    let res = layer_norm_rows(
        &ffn_sum,
        &layer.ffn.ln_gamma,
        &layer.ffn.ln_beta,
        config.layer_norm_eps,
        &kernels.norm,
    );
    let ghost t = LayerTrace {
        q,
        k,
        v,
        factor,
        heads,
        attn,
        attn_sum,
        post_attn,
        inter,
        active,
        proj,
        ffn_sum,
    };
    assert(layer_gives(res, *x, *layer, *config, *kernels, t));
    res
}

/// The weights of the model belong together.
pub open spec fn model_fits<T>(model: BertModel<T>) -> bool {
    let e = model.embeddings;
    let hidden = e.word.dims()[1];
    &&& e.word.wf()
    &&& e.word.dims().len() == 2
    &&& hidden > 0
    &&& e.position.dims().len() == 2
    &&& is_matrix(e.position, e.position.dims()[0], hidden)
    &&& e.token_type.dims().len() == 2
    &&& is_matrix(e.token_type, e.token_type.dims()[0], hidden)
    &&& is_vector(e.ln_gamma, hidden)
    &&& is_vector(e.ln_beta, hidden)
    &&& heads_divide(hidden, model.config.num_attention_heads)
    &&& forall|i: int|
        0 <= i < model.layers@.len() ==> layer_fits(#[trigger] model.layers@[i], hidden)
}

/// The model can run on this input: it is not empty, no longer than the model's
/// positions, and its ids are those of the embedding tables. No product of its
/// length with a size of the model exceeds `usize::MAX`.
pub open spec fn input_fits<T>(
    model: BertModel<T>,
    input_ids: Seq<u32>,
    token_type_ids: Option<&[u32]>,
) -> bool {
    let e = model.embeddings;
    let n = input_ids.len();
    &&& 0 < n <= model.config.max_position_embeddings
    &&& n <= e.position.dims()[0]
    &&& n <= u32::MAX
    &&& ids_below(input_ids, e.word.dims()[0])
    &&& match token_type_ids {
        Some(t) => t@.len() == n && ids_below(t@, e.token_type.dims()[0]),
        None => e.token_type.dims()[0] > 0,
    }
    &&& n * n <= usize::MAX
    &&& n * e.word.dims()[1] <= usize::MAX
    &&& forall|i: int|
        0 <= i < model.layers@.len() ==> n * (#[trigger] model.layers@[i]).ffn.b_inter.dims()[0]
            <= usize::MAX
}

/// The segment ids: those that are given, or zeros.
pub open spec fn segment_ids(token_type_ids: Option<&[u32]>, n: nat) -> Seq<u32> {
    match token_type_ids {
        Some(t) => t@,
        None => Seq::new(n, |i: int| 0u32),
    }
}

/// What the embeddings compute on the way.
pub struct EmbeddingTrace<T> {
    pub word: Tensor<T>,
    pub position: Tensor<T>,
    pub token_type: Tensor<T>,
    pub two: Tensor<T>,
    pub three: Tensor<T>,
}

/// The embeddings may make `out` of the input, by way of `t`: the sum of word,
/// position and segment embeddings, normalized.
pub open spec fn embeddings_give<
    T: Add<Output = T>,
    N: Fn(&[T], &[T], &[T], T) -> Vec<T>,
    S,
    G,
    A,
>(
    out: Tensor<T>,
    model: BertModel<T>,
    input_ids: Seq<u32>,
    token_type_ids: Option<&[u32]>,
    kernels: EncoderKernels<N, S, G, A>,
    t: EmbeddingTrace<T>,
) -> bool {
    let e = model.embeddings;
    &&& is_lookup(t.word, input_ids, e.word)
    &&& is_lookup(t.position, positions(input_ids.len()), e.position)
    &&& is_lookup(t.token_type, segment_ids(token_type_ids, input_ids.len()), e.token_type)
    &&& is_sum(t.two, t.word, t.position)
    &&& is_sum(t.three, t.two, t.token_type)
    &&& is_layer_norm(
        out,
        t.three,
        e.ln_gamma,
        e.ln_beta,
        model.config.layer_norm_eps,
        kernels.norm,
    )
}

/// Each layer may make the next of the hidden states out of the one before.
pub open spec fn layers_give<
    T: Default + From<i8> + From<i16> + Add<Output = T> + Mul<Output = T>,
    N: Fn(&[T], &[T], &[T], T) -> Vec<T>,
    S: Fn(&[T]) -> Vec<T>,
    G: Fn(T) -> T,
    A: Fn(usize) -> T,
>(
    states: Seq<Tensor<T>>,
    model: BertModel<T>,
    kernels: EncoderKernels<N, S, G, A>,
) -> bool {
    forall|i: int|
        0 <= i < states.len() - 1 ==> layer_may_give(
            states[i + 1],
            states[i],
            #[trigger] model.layers@[i],
            model.config,
            kernels,
        )
}

/// The forward pass may give `out`: the last of the hidden states that start
/// with the embeddings and go through every layer.
pub open spec fn forward_gives<
    T: Default + From<i8> + From<i16> + Add<Output = T> + Mul<Output = T>,
    N: Fn(&[T], &[T], &[T], T) -> Vec<T>,
    S: Fn(&[T]) -> Vec<T>,
    G: Fn(T) -> T,
    A: Fn(usize) -> T,
>(
    out: Tensor<T>,
    model: BertModel<T>,
    input_ids: Seq<u32>,
    token_type_ids: Option<&[u32]>,
    kernels: EncoderKernels<N, S, G, A>,
) -> bool {
    exists|states: Seq<Tensor<T>>, t: EmbeddingTrace<T>|
        #![trigger layers_give(states, model, kernels), embeddings_give(states[0], model, input_ids, token_type_ids, kernels, t)]
        states.len() == model.layers@.len() + 1 && embeddings_give(
            states[0],
            model,
            input_ids,
            token_type_ids,
            kernels,
            t,
        ) && layers_give(states, model, kernels) && out == states.last()
}

impl<T> BertModel<T> {
    /// Whether the weights of the model belong together.
    pub fn is_consistent(&self) -> (res: bool)
        ensures
            res == model_fits(*self),
    {
        let e = &self.embeddings;
        let word_shape = *e.word.shape();
        let word_dims = word_shape.as_slice();
        let position_shape = *e.position.shape();
        let position_dims = position_shape.as_slice();
        let type_shape = *e.token_type.shape();
        let type_dims = type_shape.as_slice();
        if !e.word.is_consistent() || word_dims.len() != 2 || position_dims.len() != 2
            || type_dims.len() != 2 {
            return false;
        }
        let hidden: usize = word_dims[1];
        let heads: usize = self.config.num_attention_heads;
        if hidden == 0 || !check_matrix(&e.position, position_dims[0], hidden) || !check_matrix(
            &e.token_type,
            type_dims[0],
            hidden,
        ) || !check_vector(&e.ln_gamma, hidden) || !check_vector(&e.ln_beta, hidden) || heads == 0
            || hidden % heads != 0 {
            return false;
        }
        let n: usize = self.layers.len();
        let mut i: usize = 0;
        while i < n
            invariant
                i <= n,
                n == self.layers@.len(),
                hidden == self.embeddings.word.dims()[1],
                forall|k: int|
                    0 <= k < i ==> layer_fits(#[trigger] self.layers@[k], hidden),
            decreases n - i,
        {
            if !check_layer(&self.layers[i], hidden) {
                assert(!layer_fits(self.layers@[i as int], hidden));
                return false;
            }
            i = i + 1;
        }
        true
    }

    /// Whether the model, whose weights belong together, can run on this input.
    pub fn accepts(&self, input_ids: &[u32], token_type_ids: Option<&[u32]>) -> (res: bool)
        requires
            model_fits(*self),
        ensures
            res == input_fits(*self, input_ids@, token_type_ids),
    {
        let e = &self.embeddings;
        let word_shape = *e.word.shape();
        let position_shape = *e.position.shape();
        let type_shape = *e.token_type.shape();
        let n: usize = input_ids.len();
        let types: usize = type_shape.as_slice()[0];
        if n == 0 || n > self.config.max_position_embeddings || n > position_shape.as_slice()[0]
            || n as u64 > u32::MAX as u64 || !check_ids(input_ids, word_shape.as_slice()[0]) {
            return false;
        }
        let types_fit = match token_type_ids {
            Some(t) => t.len() == n && check_ids(t, types),
            None => types > 0,
        };
        if !types_fit || n.checked_mul(n).is_none() || n.checked_mul(
            word_shape.as_slice()[1],
        ).is_none() {
            return false;
        }
        let count: usize = self.layers.len();
        let mut i: usize = 0;
        while i < count
            invariant
                i <= count,
                count == self.layers@.len(),
                n == input_ids@.len(),
                model_fits(*self),
                forall|k: int|
                    0 <= k < i ==> n * (#[trigger] self.layers@[k]).ffn.b_inter.dims()[0]
                        <= usize::MAX,
            decreases count - i,
        {
            assert(layer_fits(self.layers@[i as int], self.embeddings.word.dims()[1]));
            let inter_shape = *self.layers[i].ffn.b_inter.shape();
            if n.checked_mul(inter_shape.as_slice()[0]).is_none() {
                assert(n * self.layers@[i as int].ffn.b_inter.dims()[0] > usize::MAX);
                return false;
            }
            i = i + 1;
        }
        true
    }
}

impl<
    T: Copy + Default + From<i8> + From<i16> + Add<Output = T> + Mul<Output = T>,
> BertModel<T> {
    /// Runs the encoder forward pass. Returns per-token hidden states.
    ///
    /// - `input_ids`: token ids, length = sequence length.
    /// - `token_type_ids`: optional segment ids; defaults to all-zeros.
    pub fn forward<
        N: Fn(&[T], &[T], &[T], T) -> Vec<T>,
        S: Fn(&[T]) -> Vec<T>,
        G: Fn(T) -> T,
        A: Fn(usize) -> T,
    >(
        &self,
        input_ids: &[u32],
        token_type_ids: Option<&[u32]>,
        kernels: &EncoderKernels<N, S, G, A>,
    ) -> (res: Tensor<T>)
        requires
            model_fits(*self),
            input_fits(*self, input_ids@, token_type_ids),
            elements_fit::<T>(),
            kernels_fit(*kernels),
        ensures
            is_matrix(res, input_ids@.len() as usize, self.embeddings.word.dims()[1]),
            forward_gives(res, *self, input_ids@, token_type_ids, *kernels),
    {
        let seq_len: usize = input_ids.len();
        let e = &self.embeddings;
        let ghost hidden = e.word.dims()[1];
        // 1. Sum word + position + token-type embeddings, then normalize.
        let word_e = embedding(input_ids, &e.word);
        let position_ids = position_ids(seq_len);
        let pos_e = embedding(position_ids.as_slice(), &e.position);
        let zeros = zero_ids(seq_len);
        let type_ids: &[u32] = match token_type_ids {
            Some(t) => t,
            None => zeros.as_slice(),
        };
        let type_e = embedding(type_ids, &e.token_type);
        let two = crate::ops::elementwise::add(&word_e, &pos_e);
        let three = crate::ops::elementwise::add(&two, &type_e);
        let mut state = layer_norm_rows(
            &three,
            &e.ln_gamma,
            &e.ln_beta,
            self.config.layer_norm_eps,
            &kernels.norm,
        );
        let ghost t = EmbeddingTrace {
            word: word_e,
            position: pos_e,
            token_type: type_e,
            two,
            three,
        };
        let ghost mut states: Seq<Tensor<T>> = seq![state];
        proof {
            assert(embeddings_give(state, *self, input_ids@, token_type_ids, *kernels, t));
        }
        // 2. Encoder layers.
        let n: usize = self.layers.len();
        let mut i: usize = 0;
        while i < n
            invariant
                i <= n,
                n == self.layers@.len(),
                model_fits(*self),
                input_fits(*self, input_ids@, token_type_ids),
                elements_fit::<T>(),
                kernels_fit(*kernels),
                seq_len == input_ids@.len(),
                hidden == self.embeddings.word.dims()[1],
                is_matrix(state, seq_len, hidden),
                states.len() == i + 1,
                states.last() == state,
                embeddings_give(states[0], *self, input_ids@, token_type_ids, *kernels, t),
                layers_give(states, *self, *kernels),
            decreases n - i,
        {
            assert(layer_fits(self.layers@[i as int], hidden));
            let next = encoder_layer_forward(&state, &self.layers[i], &self.config, kernels);
            proof {
                let longer = states.push(next);
                assert forall|k: int| 0 <= k < longer.len() - 1 implies layer_may_give(
                    longer[k + 1],
                    longer[k],
                    #[trigger] self.layers@[k],
                    self.config,
                    *kernels,
                ) by {
                    if k < states.len() - 1 {
                        assert(longer[k + 1] == states[k + 1]);
                        assert(longer[k] == states[k]);
                    } else {
                        assert(longer[k + 1] == next);
                        assert(longer[k] == state);
                    }
                }
                states = longer;
            }
            state = next;
            i = i + 1;
        }
        state
    }

    /// Convenience: forward + mean pooling, returning a single `[hidden]` vector.
    ///
    /// `attention_mask` follows the HuggingFace convention: `1` for real
    /// tokens, `0` for padding. Passing `None` averages over all positions.
    pub fn embed_sentence<
        N: Fn(&[T], &[T], &[T], T) -> Vec<T>,
        S: Fn(&[T]) -> Vec<T>,
        G: Fn(T) -> T,
        A: Fn(usize) -> T,
        R: Fn(usize) -> T,
    >(
        &self,
        input_ids: &[u32],
        token_type_ids: Option<&[u32]>,
        attention_mask: Option<&[u32]>,
        kernels: &EncoderKernels<N, S, G, A>,
        reciprocal: &R,
    ) -> (res: Tensor<T>)
        requires
            model_fits(*self),
            input_fits(*self, input_ids@, token_type_ids),
            attention_mask matches Some(m) ==> m@.len() == input_ids@.len(),
            elements_fit::<T>(),
            kernels_fit(*kernels),
            forall|n: usize| n > 0 ==> #[trigger] call_requires(*reciprocal, (n,)),
        ensures
            is_vector(res, self.embeddings.word.dims()[1]),
            embedding_gives(
                res,
                *self,
                input_ids@,
                token_type_ids,
                attention_mask,
                *kernels,
                *reciprocal,
            ),
    {
        let hidden = self.forward(input_ids, token_type_ids, kernels);
        let res = mean_pool(&hidden, attention_mask, reciprocal);
        proof {
            assert(is_pooled(res, hidden, attention_mask, *reciprocal));
        }
        res
    }
}

/// `out` may be the mean of the rows of `x` that count.
pub open spec fn is_pooled<
    T: Default + Add<Output = T> + Mul<Output = T>,
    R: Fn(usize) -> T,
>(out: Tensor<T>, x: Tensor<T>, mask: Option<&[u32]>, reciprocal: R) -> bool {
    exists|sums: Seq<T>|
        #[trigger] pooled_sums(sums, x.elems(), x.dims(), mask) && is_mean(
            out.elems(),
            sums,
            unmasked_count(mask, x.dims()[0] as int),
            reciprocal,
        )
}

/// Forward pass and mean pooling may give `out`.
pub open spec fn embedding_gives<
    T: Default + From<i8> + From<i16> + Add<Output = T> + Mul<Output = T>,
    N: Fn(&[T], &[T], &[T], T) -> Vec<T>,
    S: Fn(&[T]) -> Vec<T>,
    G: Fn(T) -> T,
    A: Fn(usize) -> T,
    R: Fn(usize) -> T,
>(
    out: Tensor<T>,
    model: BertModel<T>,
    input_ids: Seq<u32>,
    token_type_ids: Option<&[u32]>,
    attention_mask: Option<&[u32]>,
    kernels: EncoderKernels<N, S, G, A>,
    reciprocal: R,
) -> bool {
    exists|hidden: Tensor<T>|
        forward_gives(hidden, model, input_ids, token_type_ids, kernels) && #[trigger] is_pooled(
            out,
            hidden,
            attention_mask,
            reciprocal,
        )
}

/// Segment ids that are all zero.
fn zero_ids(n: usize) -> (res: Vec<u32>)
    ensures
        res@ == Seq::new(n as nat, |i: int| 0u32),
{
    let mut out: Vec<u32> = Vec::new();
    let mut i: usize = 0;
    while i < n
        invariant
            i <= n,
            out@ == Seq::new(i as nat, |i: int| 0u32),
        decreases n - i,
    {
        out.push(0);
        i = i + 1;
        assert(out@ =~= Seq::new(i as nat, |i: int| 0u32));
    }
    out
}

/// The ids that a tokenizer makes of a text.
pub open spec fn text_ids(tokenizer: WordPieceTokenizer, text: Seq<char>, max_len: int) -> Seq<
    u32,
> {
    sentence_ids(
        tokenizer.vocab(),
        tokenizer.options().max_input_chars_per_word as int,
        basic_words(text, tokenizer.options().lowercase),
        max_len,
    )
}

/// Forward pass and mean pooling over a sentence of real tokens, in one segment,
/// may give `out`.
pub open spec fn sentence_embedding_gives<
    T: Default + From<i8> + From<i16> + Add<Output = T> + Mul<Output = T>,
    N: Fn(&[T], &[T], &[T], T) -> Vec<T>,
    S: Fn(&[T]) -> Vec<T>,
    G: Fn(T) -> T,
    A: Fn(usize) -> T,
    R: Fn(usize) -> T,
>(
    out: Tensor<T>,
    model: BertModel<T>,
    ids: Seq<u32>,
    kernels: EncoderKernels<N, S, G, A>,
    reciprocal: R,
) -> bool {
    exists|types: &[u32], mask: &[u32]|
        types@ == Seq::new(ids.len(), |i: int| 0u32) && mask@ == Seq::new(ids.len(), |i: int| 1u32)
            && #[trigger] embedding_gives(
            out,
            model,
            ids,
            Some(types),
            Some(mask),
            kernels,
            reciprocal,
        )
}

/// The model can run on a sentence in one segment.
pub open spec fn sentence_fits<T>(model: BertModel<T>, ids: Seq<u32>) -> bool {
    input_fits(model, ids, None)
}

impl<
    T: Copy + Default + From<i8> + From<i16> + Add<Output = T> + Mul<Output = T>,
> BertModel<T> {
    /// Convenience: tokenize one text, run the encoder, and mean-pool.
    ///
    /// `max_len` includes `[CLS]` and `[SEP]`. The tokenizer output is not
    /// padded, so the encoder only runs over real tokens.
    pub fn embed_text<
        N: Fn(&[T], &[T], &[T], T) -> Vec<T>,
        S: Fn(&[T]) -> Vec<T>,
        G: Fn(T) -> T,
        A: Fn(usize) -> T,
        R: Fn(usize) -> T,
    >(
        &self,
        tokenizer: &WordPieceTokenizer,
        text: &str,
        max_len: usize,
        kernels: &EncoderKernels<N, S, G, A>,
        reciprocal: &R,
    ) -> (res: Result<Tensor<T>>)
        requires
            model_fits(*self),
            max_len >= 2 ==> sentence_fits(*self, text_ids(*tokenizer, text@, max_len as int)),
            elements_fit::<T>(),
            kernels_fit(*kernels),
            forall|n: usize| n > 0 ==> #[trigger] call_requires(*reciprocal, (n,)),
        ensures
            max_len < 2 ==> res == Err::<Tensor<T>, Error>(
                Error::InvalidTokenizer("max_len must be at least 2"),
            ),
            max_len >= 2 ==> (res matches Ok(out) && is_vector(out, self.embeddings.word.dims()[1])
                && sentence_embedding_gives(
                out,
                *self,
                text_ids(*tokenizer, text@, max_len as int),
                *kernels,
                *reciprocal,
            )),
    {
        let encoded = match tokenizer.encode(text, max_len) {
            Ok(encoded) => encoded,
            Err(e) => {
                return Err(e);
            },
        };
        Ok(self.embed_encoded(&encoded, kernels, reciprocal))
    }

    /// Runs the encoder over an encoded sentence, and mean-pools.
    fn embed_encoded<
        N: Fn(&[T], &[T], &[T], T) -> Vec<T>,
        S: Fn(&[T]) -> Vec<T>,
        G: Fn(T) -> T,
        A: Fn(usize) -> T,
        R: Fn(usize) -> T,
    >(
        &self,
        encoded: &EncodedInput,
        kernels: &EncoderKernels<N, S, G, A>,
        reciprocal: &R,
    ) -> (res: Tensor<T>)
        requires
            model_fits(*self),
            encoded.holds(encoded.input_ids@),
            sentence_fits(*self, encoded.input_ids@),
            elements_fit::<T>(),
            kernels_fit(*kernels),
            forall|n: usize| n > 0 ==> #[trigger] call_requires(*reciprocal, (n,)),
        ensures
            is_vector(res, self.embeddings.word.dims()[1]),
            sentence_embedding_gives(
                res,
                *self,
                encoded.input_ids@,
                *kernels,
                *reciprocal,
            ),
    {
        let types = encoded.token_type_ids.as_slice();
        let mask = encoded.attention_mask.as_slice();
        self.embed_sentence(
            encoded.input_ids.as_slice(),
            Some(types),
            Some(mask),
            kernels,
            reciprocal,
        )
    }

    /// Like [`BertModel::embed_text`], for any text: `None` where the model
    /// cannot run on the encoded text.
    pub fn try_embed_text<
        N: Fn(&[T], &[T], &[T], T) -> Vec<T>,
        S: Fn(&[T]) -> Vec<T>,
        G: Fn(T) -> T,
        A: Fn(usize) -> T,
        R: Fn(usize) -> T,
    >(
        &self,
        tokenizer: &WordPieceTokenizer,
        text: &str,
        max_len: usize,
        kernels: &EncoderKernels<N, S, G, A>,
        reciprocal: &R,
    ) -> (res: Result<Option<Tensor<T>>>)
        requires
            model_fits(*self),
            elements_fit::<T>(),
            kernels_fit(*kernels),
            forall|n: usize| n > 0 ==> #[trigger] call_requires(*reciprocal, (n,)),
        ensures
            max_len < 2 ==> res == Err::<Option<Tensor<T>>, Error>(
                Error::InvalidTokenizer("max_len must be at least 2"),
            ),
            max_len >= 2 ==> match res {
                Ok(Some(out)) => {
                    let ids = text_ids(*tokenizer, text@, max_len as int);
                    &&& sentence_fits(*self, ids)
                    &&& is_vector(out, self.embeddings.word.dims()[1])
                    &&& sentence_embedding_gives(out, *self, ids, *kernels, *reciprocal)
                },
                Ok(None) => !sentence_fits(*self, text_ids(*tokenizer, text@, max_len as int)),
                Err(_) => false,
            },
    {
        match tokenizer.encode(text, max_len) {
            Ok(encoded) => {
                if !self.accepts(encoded.input_ids.as_slice(), None) {
                    return Ok(None);
                }
            },
            Err(e) => {
                return Err(e);
            },
        }
        match self.embed_text(tokenizer, text, max_len, kernels, reciprocal) {
            Ok(out) => Ok(Some(out)),
            Err(e) => Err(e),
        }
    }
}

} // verus!
