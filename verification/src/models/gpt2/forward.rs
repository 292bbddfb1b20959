//! Running a GPT-2 decoder.

use vstd::prelude::*;
use vstd::slice::{slice_subrange, slice_to_vec};
use core::ops::{Add, Mul};
use crate::models::forward::{
    check_ids, check_matrix, check_vector, ids_below, is_linear, is_lookup, is_mapped, is_matrix,
    is_sum, is_vector, position_ids, positions,
};
use crate::models::generate::{
    argmax, argmax_gives, generate, generates, is_greatest, lemma_argmax_in_range,
    lemma_argmax_is_greatest, lemma_each_token_follows, ordered_by, runs_through,
};
use crate::models::gpt2::{Gpt2Config, Gpt2Layer, Gpt2Model, columns_of, split_qkv};
use crate::num::{can_add, can_multiply, can_order, lemma_row_bounds, row_of};
use crate::ops::attention::heads_divide;
use crate::ops::attention::queries::{
    attention_gives, causal_multi_head_attention_from_qkv, size_of_attention,
};
use crate::ops::embedding::embedding;
use crate::ops::layernorm::{is_layer_norm, is_row_norm, layer_norm_rows};
use crate::ops::linear::linear;
use crate::ops::matmul::{matmul_t_b, product_t_gives};
use crate::ops::softmax::is_row_softmax;
use crate::tensor::{Tensor, lemma_product_1, lemma_product_2};

verus! {

/// The arithmetic of a decoder that the element type does not have.
pub struct DecoderKernels<N, S, G, F> {
    /// Layer normalization of one row: row, scale, offset, epsilon. See
    /// [`layer_norm_row`](crate::ops::layernorm::layer_norm_row).
    pub norm: N,
    /// Softmax of one row. See [`softmax_row`](crate::ops::softmax::softmax_row).
    pub softmax: S,
    /// Activation of one element.
    pub activation: G,
    /// What attention scores are scaled by, from the width of a head.
    pub score_factor: F,
}

/// The kernels can be called wherever a forward pass calls them.
pub open spec fn kernels_fit<
    T,
    N: Fn(&[T], &[T], &[T], T) -> Vec<T>,
    S: Fn(&[T]) -> Vec<T>,
    G: Fn(T) -> T,
    F: Fn(usize) -> T,
>(kernels: DecoderKernels<N, S, G, F>) -> bool {
    &&& is_row_norm(kernels.norm)
    &&& is_row_softmax(kernels.softmax)
    &&& forall|v: T| #[trigger] call_requires(kernels.activation, (v,))
    &&& forall|d: usize| #[trigger] call_requires(kernels.score_factor, (d,))
}

/// The weights of a layer belong together, for a hidden size of `hidden` and
/// heads of `inner` columns in all.
pub open spec fn layer_fits<T>(layer: Gpt2Layer<T>, hidden: usize, inner: usize) -> bool {
    let a = layer.attn;
    let m = layer.mlp;
    &&& is_vector(layer.ln_1_w, hidden)
    &&& is_vector(layer.ln_1_b, hidden)
    &&& 0 < 3 * inner <= usize::MAX
    &&& is_matrix(a.c_attn_w, (3 * inner) as usize, hidden)
    &&& is_vector(a.c_attn_b, (3 * inner) as usize)
    &&& is_matrix(a.c_proj_w, hidden, inner)
    &&& is_vector(a.c_proj_b, hidden)
    &&& is_vector(layer.ln_2_w, hidden)
    &&& is_vector(layer.ln_2_b, hidden)
    &&& m.fc_b.dims().len() == 1
    &&& m.fc_b.dims()[0] > 0
    &&& is_vector(m.fc_b, m.fc_b.dims()[0])
    &&& is_matrix(m.fc_w, m.fc_b.dims()[0], hidden)
    &&& is_matrix(m.proj_w, hidden, m.fc_b.dims()[0])
    &&& is_vector(m.proj_b, hidden)
}

/// Whether the weights of a layer belong together.
fn check_layer<T>(layer: &Gpt2Layer<T>, hidden: usize, inner: usize) -> (res: bool)
    ensures
        res == layer_fits(*layer, hidden, inner),
{
    let a = &layer.attn;
    let m = &layer.mlp;
    let fc_shape = *m.fc_b.shape();
    let fc_dims = fc_shape.as_slice();
    if fc_dims.len() != 1 || inner == 0 {
        return false;
    }
    let fc: usize = fc_dims[0];
    let triple: usize = match inner.checked_mul(3) {
        Some(triple) => triple,
        None => {
            return false;
        },
    };
    check_vector(&layer.ln_1_w, hidden) && check_vector(&layer.ln_1_b, hidden) && check_matrix(
        &a.c_attn_w,
        triple,
        hidden,
    ) && check_vector(&a.c_attn_b, triple) && check_matrix(&a.c_proj_w, hidden, inner)
        && check_vector(&a.c_proj_b, hidden) && check_vector(&layer.ln_2_w, hidden) && check_vector(
        &layer.ln_2_b,
        hidden,
    ) && fc > 0 && check_vector(&m.fc_b, fc) && check_matrix(&m.fc_w, fc, hidden) && check_matrix(
        &m.proj_w,
        hidden,
        fc,
    ) && check_vector(&m.proj_b, hidden)
}

/// No product of a length with a size of a layer exceeds `usize::MAX`.
pub open spec fn length_fits_layer<T>(layer: Gpt2Layer<T>, inner: usize, n: nat) -> bool {
    n * (3 * inner) <= usize::MAX && n * layer.mlp.fc_b.dims()[0] <= usize::MAX
}

/// What a layer computes on the way.
pub struct LayerTrace<T> {
    pub ln1: Tensor<T>,
    pub qkv: Tensor<T>,
    pub q: Tensor<T>,
    pub k: Tensor<T>,
    pub v: Tensor<T>,
    pub factor: T,
    pub heads: Tensor<T>,
    pub attn: Tensor<T>,
    pub middle: Tensor<T>,
    pub ln2: Tensor<T>,
    pub fc: Tensor<T>,
    pub active: Tensor<T>,
    pub proj: Tensor<T>,
}

/// A layer may make `out` of `x`, by way of `t`: normalization, attention and
/// residual, then normalization, feed-forward block and residual.
pub open spec fn layer_gives<
    T: Default + Add<Output = T> + Mul<Output = T>,
    N: Fn(&[T], &[T], &[T], T) -> Vec<T>,
    S: Fn(&[T]) -> Vec<T>,
    G: Fn(T) -> T,
    F: Fn(usize) -> T,
>(
    out: Tensor<T>,
    x: Tensor<T>,
    layer: Gpt2Layer<T>,
    config: Gpt2Config<T>,
    kernels: DecoderKernels<N, S, G, F>,
    t: LayerTrace<T>,
) -> bool {
    let a = layer.attn;
    let m = layer.mlp;
    let rows = x.dims()[0] as int;
    let inner = config.hidden_size as int;
    &&& is_layer_norm(
        t.ln1,
        x,
        layer.ln_1_w,
        layer.ln_1_b,
        config.layer_norm_eps,
        kernels.norm,
    )
    &&& is_linear(t.qkv, t.ln1, a.c_attn_w, Some(&a.c_attn_b))
    &&& is_matrix(t.q, x.dims()[0], config.hidden_size)
    &&& is_matrix(t.k, x.dims()[0], config.hidden_size)
    &&& is_matrix(t.v, x.dims()[0], config.hidden_size)
    &&& t.q.elems() == columns_of(t.qkv.elems(), rows, 3 * inner, 0, inner)
    &&& t.k.elems() == columns_of(t.qkv.elems(), rows, 3 * inner, inner, inner)
    &&& t.v.elems() == columns_of(t.qkv.elems(), rows, 3 * inner, 2 * inner, inner)
    &&& call_ensures(
        kernels.score_factor,
        ((config.hidden_size / config.num_attention_heads),),
        t.factor,
    )
    &&& t.heads.wf()
    &&& t.heads.dims() == t.q.dims()
    &&& attention_gives(
        t.heads.elems(),
        t.q.elems(),
        t.k.elems(),
        t.v.elems(),
        size_of_attention(t.q, t.k, config.num_attention_heads),
        None,
        true,
        t.factor,
        kernels.softmax,
    )
    &&& is_linear(t.attn, t.heads, a.c_proj_w, Some(&a.c_proj_b))
    &&& is_sum(t.middle, x, t.attn)
    &&& is_layer_norm(
        t.ln2,
        t.middle,
        layer.ln_2_w,
        layer.ln_2_b,
        config.layer_norm_eps,
        kernels.norm,
    )
    &&& is_linear(t.fc, t.ln2, m.fc_w, Some(&m.fc_b))
    &&& is_mapped(t.active, t.fc, kernels.activation)
    &&& is_linear(t.proj, t.active, m.proj_w, Some(&m.proj_b))
    &&& is_sum(out, t.middle, t.proj)
}

/// A layer may make `out` of `x`.
pub open spec fn layer_may_give<
    T: Default + Add<Output = T> + Mul<Output = T>,
    N: Fn(&[T], &[T], &[T], T) -> Vec<T>,
    S: Fn(&[T]) -> Vec<T>,
    G: Fn(T) -> T,
    F: Fn(usize) -> T,
>(
    out: Tensor<T>,
    x: Tensor<T>,
    layer: Gpt2Layer<T>,
    config: Gpt2Config<T>,
    kernels: DecoderKernels<N, S, G, F>,
) -> bool {
    exists|t: LayerTrace<T>| #[trigger] layer_gives(out, x, layer, config, kernels, t)
}

/// Runs one layer.
fn layer_forward<
    T: Copy + Default + Add<Output = T> + Mul<Output = T>,
    N: Fn(&[T], &[T], &[T], T) -> Vec<T>,
    S: Fn(&[T]) -> Vec<T>,
    G: Fn(T) -> T,
    F: Fn(usize) -> T,
>(
    x: &Tensor<T>,
    layer: &Gpt2Layer<T>,
    config: &Gpt2Config<T>,
    kernels: &DecoderKernels<N, S, G, F>,
) -> (res: Tensor<T>)
    requires
        x.wf(),
        x.dims().len() == 2,
        x.dims()[1] > 0,
        layer_fits(*layer, x.dims()[1], config.hidden_size),
        length_fits_layer(*layer, config.hidden_size, x.dims()[0] as nat),
        heads_divide(config.hidden_size, config.num_attention_heads),
        can_add::<T>(),
        can_multiply::<T>(),
        kernels_fit(*kernels),
    ensures
        res.wf(),
        res.dims() == x.dims(),
        layer_may_give(res, *x, *layer, *config, *kernels),
{
    proof {
        lemma_product_2(x.dims());
    }
    // Pre-norm, attention, residual.
    let ln1 = layer_norm_rows(x, &layer.ln_1_w, &layer.ln_1_b, config.layer_norm_eps, &kernels.norm);
    let qkv = linear(&ln1, &layer.attn.c_attn_w, Some(&layer.attn.c_attn_b));
    let (q, k, v) = split_qkv(&qkv, config.hidden_size);
    let score_factor = &kernels.score_factor;
    let factor = score_factor(config.hidden_size / config.num_attention_heads);
    let heads = causal_multi_head_attention_from_qkv(
        &q,
        &k,
        &v,
        config.num_attention_heads,
        factor,
        &kernels.softmax,
    );
    let attn = linear(&heads, &layer.attn.c_proj_w, Some(&layer.attn.c_proj_b));
    assert(attn.dims() =~= x.dims());
    let middle = crate::ops::elementwise::add(x, &attn);
    // Pre-norm, feed-forward, residual.
    let ln2 = layer_norm_rows(
        &middle,
        &layer.ln_2_w,
        &layer.ln_2_b,
        config.layer_norm_eps,
        &kernels.norm,
    );
    let fc = linear(&ln2, &layer.mlp.fc_w, Some(&layer.mlp.fc_b));
    let active = crate::ops::elementwise::map(&fc, &kernels.activation);
    let proj = linear(&active, &layer.mlp.proj_w, Some(&layer.mlp.proj_b));
    assert(proj.dims() =~= x.dims());
    let res = crate::ops::elementwise::add(&middle, &proj);
    let ghost t = LayerTrace {
        ln1,
        qkv,
        q,
        k,
        v,
        factor,
        heads,
        attn,
        middle,
        ln2,
        fc,
        active,
        proj,
    };
    assert(layer_gives(res, *x, *layer, *config, *kernels, t));
    res
}

/// The weights of the model belong together.
pub open spec fn model_fits<T>(model: Gpt2Model<T>) -> bool {
    let hidden = model.wte.dims()[1];
    &&& model.wte.wf()
    &&& model.wte.dims().len() == 2
    &&& hidden > 0
    &&& model.wpe.dims().len() == 2
    &&& is_matrix(model.wpe, model.wpe.dims()[0], hidden)
    &&& is_vector(model.ln_f_w, hidden)
    &&& is_vector(model.ln_f_b, hidden)
    &&& model.lm_head.dims().len() == 2
    &&& is_matrix(model.lm_head, model.lm_head.dims()[0], hidden)
    &&& heads_divide(model.config.hidden_size, model.config.num_attention_heads)
    &&& forall|i: int|
        0 <= i < model.layers@.len() ==> layer_fits(
            #[trigger] model.layers@[i],
            hidden,
            model.config.hidden_size,
        )
}

/// The model can run on sequences of `n` tokens: it has that many positions,
/// and no product with a size of the model exceeds `usize::MAX`.
pub open spec fn length_fits<T>(model: Gpt2Model<T>, n: nat) -> bool {
    &&& n <= model.wpe.dims()[0]
    &&& n <= u32::MAX
    &&& n * model.wte.dims()[1] <= usize::MAX
    &&& n * model.lm_head.dims()[0] <= usize::MAX
    &&& forall|i: int|
        0 <= i < model.layers@.len() ==> length_fits_layer(
            #[trigger] model.layers@[i],
            model.config.hidden_size,
            n,
        )
}

/// What the embeddings compute on the way.
pub struct EmbeddingTrace<T> {
    pub word: Tensor<T>,
    pub position: Tensor<T>,
}

/// The embeddings may make `out` of the input, by way of `t`: the sum of word
/// and position embeddings.
pub open spec fn embeddings_give<T: Add<Output = T>>(
    out: Tensor<T>,
    model: Gpt2Model<T>,
    input_ids: Seq<u32>,
    t: EmbeddingTrace<T>,
) -> bool {
    &&& is_lookup(t.word, input_ids, model.wte)
    &&& is_lookup(t.position, positions(input_ids.len()), model.wpe)
    &&& is_sum(out, t.word, t.position)
}

/// Each layer may make the next of the hidden states out of the one before.
pub open spec fn layers_give<
    T: Default + Add<Output = T> + Mul<Output = T>,
    N: Fn(&[T], &[T], &[T], T) -> Vec<T>,
    S: Fn(&[T]) -> Vec<T>,
    G: Fn(T) -> T,
    F: Fn(usize) -> T,
>(
    states: Seq<Tensor<T>>,
    model: Gpt2Model<T>,
    kernels: DecoderKernels<N, S, G, F>,
) -> bool {
    forall|i: int|
        0 <= i < states.len() - 1 ==> layer_may_give(
            states[i + 1],
            states[i],
            #[trigger] model.layers@[i],
            model.config,
            kernels,
        )
}

/// The forward pass may give `out`: the last of the hidden states that start
/// with the embeddings and go through every layer, normalized.
pub open spec fn forward_gives<
    T: Default + Add<Output = T> + Mul<Output = T>,
    N: Fn(&[T], &[T], &[T], T) -> Vec<T>,
    S: Fn(&[T]) -> Vec<T>,
    G: Fn(T) -> T,
    F: Fn(usize) -> T,
>(
    out: Tensor<T>,
    model: Gpt2Model<T>,
    input_ids: Seq<u32>,
    kernels: DecoderKernels<N, S, G, F>,
) -> bool {
    exists|states: Seq<Tensor<T>>, t: EmbeddingTrace<T>|
        #![trigger layers_give(states, model, kernels), embeddings_give(states[0], model, input_ids, t)]
        states.len() == model.layers@.len() + 1 && embeddings_give(states[0], model, input_ids, t)
            && layers_give(states, model, kernels) && is_layer_norm(
            out,
            states.last(),
            model.ln_f_w,
            model.ln_f_b,
            model.config.layer_norm_eps,
            kernels.norm,
        )
}

/// The logits of every position may be `out`: the hidden states times the
/// output projection.
pub open spec fn logits_give<
    T: Default + Add<Output = T> + Mul<Output = T>,
    N: Fn(&[T], &[T], &[T], T) -> Vec<T>,
    S: Fn(&[T]) -> Vec<T>,
    G: Fn(T) -> T,
    F: Fn(usize) -> T,
>(
    out: Tensor<T>,
    model: Gpt2Model<T>,
    input_ids: Seq<u32>,
    kernels: DecoderKernels<N, S, G, F>,
) -> bool {
    exists|hidden: Tensor<T>|
        #[trigger] forward_gives(hidden, model, input_ids, kernels) && product_t_gives(
            hidden.elems(),
            model.lm_head.elems(),
            input_ids.len() as int,
            model.wte.dims()[1] as int,
            model.lm_head.dims()[0] as int,
            out.elems(),
        )
}

/// The logits of the last position may be `row`: one for each token of the
/// vocabulary.
pub open spec fn last_logits_give<
    T: Default + Add<Output = T> + Mul<Output = T>,
    N: Fn(&[T], &[T], &[T], T) -> Vec<T>,
    S: Fn(&[T]) -> Vec<T>,
    G: Fn(T) -> T,
    F: Fn(usize) -> T,
>(
    row: Seq<T>,
    model: Gpt2Model<T>,
    input_ids: Seq<u32>,
    kernels: DecoderKernels<N, S, G, F>,
) -> bool {
    exists|all: Tensor<T>|
        #[trigger] logits_give(all, model, input_ids, kernels) && row == row_of(
            all.elems(),
            model.lm_head.dims()[0] as int,
            input_ids.len() - 1,
        ).take(model.config.vocab_size as int)
}

/// The token with the greatest logit may be `token`.
pub open spec fn next_token_gives<
    T: Default + PartialOrd + Add<Output = T> + Mul<Output = T>,
    N: Fn(&[T], &[T], &[T], T) -> Vec<T>,
    S: Fn(&[T]) -> Vec<T>,
    G: Fn(T) -> T,
    F: Fn(usize) -> T,
>(
    model: Gpt2Model<T>,
    input_ids: Seq<u32>,
    kernels: DecoderKernels<N, S, G, F>,
    token: u32,
) -> bool {
    exists|row: Seq<T>, best: usize|
        #![trigger last_logits_give(row, model, input_ids, kernels), argmax_gives(row, row.len() as int, best as int)]
        last_logits_give(row, model, input_ids, kernels) && argmax_gives(
            row,
            row.len() as int,
            best as int,
        ) && row.len() == model.config.vocab_size && token == best as u32
}

impl<T> Gpt2Model<T> {
    /// Whether the weights of the model belong together.
    pub fn is_consistent(&self) -> (res: bool)
        ensures
            res == model_fits(*self),
    {
        let wte_shape = *self.wte.shape();
        let wte_dims = wte_shape.as_slice();
        let wpe_shape = *self.wpe.shape();
        let wpe_dims = wpe_shape.as_slice();
        let head_shape = *self.lm_head.shape();
        let head_dims = head_shape.as_slice();
        if !self.wte.is_consistent() || wte_dims.len() != 2 || wpe_dims.len() != 2
            || head_dims.len() != 2 {
            return false;
        }
        let hidden: usize = wte_dims[1];
        let inner: usize = self.config.hidden_size;
        let heads: usize = self.config.num_attention_heads;
        if hidden == 0 || !check_matrix(&self.wpe, wpe_dims[0], hidden) || !check_matrix(
            &self.lm_head,
            head_dims[0],
            hidden,
        ) || !check_vector(&self.ln_f_w, hidden) || !check_vector(&self.ln_f_b, hidden) || heads
            == 0 || inner % heads != 0 {
            return false;
        }
        let n: usize = self.layers.len();
        let mut i: usize = 0;
        while i < n
            invariant
                i <= n,
                n == self.layers@.len(),
                hidden == self.wte.dims()[1],
                inner == self.config.hidden_size,
                forall|k: int|
                    0 <= k < i ==> layer_fits(#[trigger] self.layers@[k], hidden, inner),
            decreases n - i,
        {
            if !check_layer(&self.layers[i], hidden, inner) {
                assert(!layer_fits(self.layers@[i as int], hidden, inner));
                return false;
            }
            i = i + 1;
        }
        true
    }

    /// Whether the model, whose weights belong together, can run on sequences of
    /// `n` tokens.
    pub fn accepts_length(&self, n: usize) -> (res: bool)
        requires
            model_fits(*self),
        ensures
            res == length_fits(*self, n as nat),
    {
        let wte_shape = *self.wte.shape();
        let wpe_shape = *self.wpe.shape();
        let head_shape = *self.lm_head.shape();
        if n > wpe_shape.as_slice()[0] || n as u64 > u32::MAX as u64 || n.checked_mul(
            wte_shape.as_slice()[1],
        ).is_none() || n.checked_mul(head_shape.as_slice()[0]).is_none() {
            return false;
        }
        let inner: usize = self.config.hidden_size;
        let count: usize = self.layers.len();
        let mut i: usize = 0;
        while i < count
            invariant
                i <= count,
                count == self.layers@.len(),
                model_fits(*self),
                inner == self.config.hidden_size,
                forall|k: int|
                    0 <= k < i ==> length_fits_layer(
                        #[trigger] self.layers@[k],
                        inner,
                        n as nat,
                    ),
            decreases count - i,
        {
            assert(layer_fits(self.layers@[i as int], self.wte.dims()[1], inner));
            let fc_shape = *self.layers[i].mlp.fc_b.shape();
            let triple: usize = 3 * inner;
            if n.checked_mul(triple).is_none() || n.checked_mul(fc_shape.as_slice()[0]).is_none() {
                assert(!length_fits_layer(self.layers@[i as int], inner, n as nat));
                return false;
            }
            i = i + 1;
        }
        true
    }
}

impl<T: Copy + Default + Add<Output = T> + Mul<Output = T>> Gpt2Model<T> {
    /// Runs the transformer and returns hidden states `[seq_len, hidden_size]`.
    pub fn forward<
        N: Fn(&[T], &[T], &[T], T) -> Vec<T>,
        S: Fn(&[T]) -> Vec<T>,
        G: Fn(T) -> T,
        F: Fn(usize) -> T,
    >(&self, input_ids: &[u32], kernels: &DecoderKernels<N, S, G, F>) -> (res: Tensor<T>)
        requires
            model_fits(*self),
            length_fits(*self, input_ids@.len()),
            ids_below(input_ids@, self.wte.dims()[0]),
            can_add::<T>(),
            can_multiply::<T>(),
            kernels_fit(*kernels),
        ensures
            is_matrix(res, input_ids@.len() as usize, self.wte.dims()[1]),
            forward_gives(res, *self, input_ids@, *kernels),
    {
        let seq_len: usize = input_ids.len();
        let ghost hidden = self.wte.dims()[1];
        let word = embedding(input_ids, &self.wte);
        let pos_ids = position_ids(seq_len);
        let position = embedding(pos_ids.as_slice(), &self.wpe);
        let mut state = crate::ops::elementwise::add(&word, &position);
        let ghost t = EmbeddingTrace { word, position };
        let ghost mut states: Seq<Tensor<T>> = seq![state];
        assert(embeddings_give(state, *self, input_ids@, t));
        let n: usize = self.layers.len();
        let mut i: usize = 0;
        while i < n
            invariant
                i <= n,
                n == self.layers@.len(),
                model_fits(*self),
                length_fits(*self, input_ids@.len()),
                can_add::<T>(),
                can_multiply::<T>(),
                kernels_fit(*kernels),
                seq_len == input_ids@.len(),
                hidden == self.wte.dims()[1],
                is_matrix(state, seq_len, hidden),
                states.len() == i + 1,
                states.last() == state,
                embeddings_give(states[0], *self, input_ids@, t),
                layers_give(states, *self, *kernels),
            decreases n - i,
        {
            assert(layer_fits(self.layers@[i as int], hidden, self.config.hidden_size));
            assert(length_fits_layer(
                self.layers@[i as int],
                self.config.hidden_size,
                seq_len as nat,
            ));
            let next = layer_forward(&state, &self.layers[i], &self.config, kernels);
            proof {
                let longer = states.push(next);
                assert forall|k: int| 0 <= k < longer.len() - 1 implies layer_may_give(
                    longer[k + 1],
                    longer[k],
                    #[trigger] self.layers@[k],
                    self.config,
                    *kernels,
                ) by {
                    if k < states.len() - 1 {
                        assert(longer[k + 1] == states[k + 1]);
                        assert(longer[k] == states[k]);
                    } else {
                        assert(longer[k + 1] == next);
                        assert(longer[k] == state);
                    }
                }
                states = longer;
            }
            state = next;
            i = i + 1;
        }
        layer_norm_rows(
            &state,
            &self.ln_f_w,
            &self.ln_f_b,
            self.config.layer_norm_eps,
            &kernels.norm,
        )
    }

    /// Returns next-token logits for every position: shape `[seq_len, vocab_size]`.
    pub fn logits<
        N: Fn(&[T], &[T], &[T], T) -> Vec<T>,
        S: Fn(&[T]) -> Vec<T>,
        G: Fn(T) -> T,
        F: Fn(usize) -> T,
    >(&self, input_ids: &[u32], kernels: &DecoderKernels<N, S, G, F>) -> (res: Tensor<T>)
        requires
            model_fits(*self),
            length_fits(*self, input_ids@.len()),
            ids_below(input_ids@, self.wte.dims()[0]),
            can_add::<T>(),
            can_multiply::<T>(),
            kernels_fit(*kernels),
        ensures
            is_matrix(res, input_ids@.len() as usize, self.lm_head.dims()[0]),
            logits_give(res, *self, input_ids@, *kernels),
    {
        let hidden = self.forward(input_ids, kernels);
        matmul_t_b(&hidden, &self.lm_head)
    }

    /// Returns the next-token logits for the last input position: shape `[vocab_size]`.
    pub fn next_token_logits<
        N: Fn(&[T], &[T], &[T], T) -> Vec<T>,
        S: Fn(&[T]) -> Vec<T>,
        G: Fn(T) -> T,
        F: Fn(usize) -> T,
    >(&self, input_ids: &[u32], kernels: &DecoderKernels<N, S, G, F>) -> (res: Tensor<T>)
        requires
            model_fits(*self),
            length_fits(*self, input_ids@.len()),
            ids_below(input_ids@, self.wte.dims()[0]),
            input_ids@.len() > 0,
            self.config.vocab_size <= self.lm_head.dims()[0],
            can_add::<T>(),
            can_multiply::<T>(),
            kernels_fit(*kernels),
        ensures
            is_vector(res, self.config.vocab_size),
            last_logits_give(res.elems(), *self, input_ids@, *kernels),
    {
        let all = self.logits(input_ids, kernels);
        let head_shape = *self.lm_head.shape();
        let width: usize = head_shape.as_slice()[0];
        let vocab: usize = self.config.vocab_size;
        let n: usize = input_ids.len();
        proof {
            lemma_product_2(all.dims());
            lemma_product_1(seq![vocab]);
            lemma_row_bounds(n - 1, n as int, width as int);
        }
        let last_off: usize = (n - 1) * width;
        let row = slice_to_vec(slice_subrange(all.data(), last_off, last_off + vocab));
        assert(row@ =~= row_of(all.elems(), width as int, n - 1).take(vocab as int));
        let dims: [usize; 1] = [vocab];
        assert(dims@ =~= seq![vocab]);
        Tensor::from_vec(row, &dims)
    }
}

/// The model can generate from a prompt: it can run on the prompt and on every
/// sequence that comes up, where a token is to follow it.
pub open spec fn generation_fits<
    T: Copy + Default + PartialOrd + Add<Output = T> + Mul<Output = T>,
    N: Fn(&[T], &[T], &[T], T) -> Vec<T>,
    S: Fn(&[T]) -> Vec<T>,
    G: Fn(T) -> T,
    F: Fn(usize) -> T,
>(
    model: Gpt2Model<T>,
    prompt_ids: Seq<u32>,
    max_new_tokens: nat,
    kernels: DecoderKernels<N, S, G, F>,
) -> bool {
    runs_through(
        |ids: Seq<u32>, token: u32| model.may_pick(ids, &kernels, token),
        |ids: Seq<u32>| model.can_run(ids),
        Some(model.config.max_position_embeddings),
        model.eos_token_id,
        prompt_ids,
        max_new_tokens,
    )
}

/// Every token that may come next is one of the vocabulary.
pub proof fn lemma_next_token_in_vocabulary<
    T: Copy + Default + PartialOrd + Add<Output = T> + Mul<Output = T>,
    N: Fn(&[T], &[T], &[T], T) -> Vec<T>,
    S: Fn(&[T]) -> Vec<T>,
    G: Fn(T) -> T,
    F: Fn(usize) -> T,
>(
    model: Gpt2Model<T>,
    ids: Seq<u32>,
    kernels: DecoderKernels<N, S, G, F>,
    token: u32,
)
    requires
        next_token_gives(model, ids, kernels, token),
        model.config.vocab_size > 0,
    ensures
        token < model.config.vocab_size,
{
    let (row, best) = choose|row: Seq<T>, best: usize|
        #![trigger last_logits_give(row, model, ids, kernels), argmax_gives(row, row.len() as int, best as int)]
        last_logits_give(row, model, ids, kernels) && argmax_gives(
            row,
            row.len() as int,
            best as int,
        ) && row.len() == model.config.vocab_size && token == best as u32;
    lemma_argmax_in_range(row, row.len() as int, best as int);
    assert(best as u32 <= best);
}

/// A model can generate from a prompt whose ids are those of the embedding, where
/// every token of the vocabulary has an embedding and the model can run on every
/// length that comes up.
pub proof fn lemma_generation_fits<
    T: Copy + Default + PartialOrd + Add<Output = T> + Mul<Output = T>,
    N: Fn(&[T], &[T], &[T], T) -> Vec<T>,
    S: Fn(&[T]) -> Vec<T>,
    G: Fn(T) -> T,
    F: Fn(usize) -> T,
>(
    model: Gpt2Model<T>,
    prompt_ids: Seq<u32>,
    max_new_tokens: nat,
    kernels: DecoderKernels<N, S, G, F>,
)
    requires
        prompt_ids.len() > 0,
        ids_below(prompt_ids, model.wte.dims()[0]),
        0 < model.config.vocab_size <= model.wte.dims()[0],
        model.config.vocab_size <= model.lm_head.dims()[0],
        forall|n: nat|
            prompt_ids.len() <= n < prompt_ids.len() + max_new_tokens && n
                < model.config.max_position_embeddings ==> #[trigger] length_fits(model, n),
    ensures
        generation_fits(model, prompt_ids, max_new_tokens, kernels),
    decreases max_new_tokens,
{
    if max_new_tokens > 0 && prompt_ids.len() < model.config.max_position_embeddings {
        assert(length_fits(model, prompt_ids.len()));
        assert forall|token: u32| #[trigger] model.may_pick(prompt_ids, &kernels, token) implies
            generation_fits(model, prompt_ids.push(token), (max_new_tokens - 1) as nat, kernels) by {
            lemma_next_token_in_vocabulary(model, prompt_ids, kernels, token);
            lemma_generation_fits(
                model,
                prompt_ids.push(token),
                (max_new_tokens - 1) as nat,
                kernels,
            );
        }
    }
}

/// Greedy generation from a prompt may give `out`.
pub open spec fn greedy_gives<
    T: Copy + Default + PartialOrd + Add<Output = T> + Mul<Output = T>,
    N: Fn(&[T], &[T], &[T], T) -> Vec<T>,
    S: Fn(&[T]) -> Vec<T>,
    G: Fn(T) -> T,
    F: Fn(usize) -> T,
>(
    out: Seq<u32>,
    model: Gpt2Model<T>,
    prompt_ids: Seq<u32>,
    max_new_tokens: nat,
    kernels: DecoderKernels<N, S, G, F>,
) -> bool {
    generates(
        |ids: Seq<u32>, token: u32| model.may_pick(ids, &kernels, token),
        Some(model.config.max_position_embeddings),
        model.eos_token_id,
        prompt_ids,
        max_new_tokens,
        out,
    )
}

/// Every generated token has the greatest logit behind the tokens before it, and
/// of equal ones it is the last, where `>` orders the logits as `rank` does.
pub proof fn lemma_greedy_tokens_are_greatest<
    T: Copy + Default + PartialOrd + Add<Output = T> + Mul<Output = T>,
    N: Fn(&[T], &[T], &[T], T) -> Vec<T>,
    S: Fn(&[T]) -> Vec<T>,
    G: Fn(T) -> T,
    F: Fn(usize) -> T,
>(
    out: Seq<u32>,
    model: Gpt2Model<T>,
    prompt_ids: Seq<u32>,
    max_new_tokens: nat,
    kernels: DecoderKernels<N, S, G, F>,
    rank: spec_fn(T) -> int,
    i: int,
)
    requires
        greedy_gives(out, model, prompt_ids, max_new_tokens, kernels),
        prompt_ids.len() <= i < out.len(),
        0 < model.config.vocab_size <= u32::MAX,
        ordered_by(rank),
    ensures
        exists|row: Seq<T>|
            #[trigger] last_logits_give(row, model, out.take(i), kernels) && row.len()
                == model.config.vocab_size && is_greatest(row, rank, out[i] as int),
{
    lemma_each_token_follows(
        |ids: Seq<u32>, token: u32| model.may_pick(ids, &kernels, token),
        Some(model.config.max_position_embeddings),
        model.eos_token_id,
        prompt_ids,
        max_new_tokens,
        out,
        i,
    );
    let (row, best) = choose|row: Seq<T>, best: usize|
        #![trigger last_logits_give(row, model, out.take(i), kernels), argmax_gives(row, row.len() as int, best as int)]
        last_logits_give(row, model, out.take(i), kernels) && argmax_gives(
            row,
            row.len() as int,
            best as int,
        ) && row.len() == model.config.vocab_size && out[i] == best as u32;
    lemma_argmax_is_greatest(row, row.len() as int, best as int, rank);
    assert(is_greatest(row, rank, out[i] as int));
}

/// A model that can run on sequences of `n` tokens can run on shorter ones.
pub proof fn lemma_shorter_fits<T>(model: Gpt2Model<T>, n: nat, shorter: nat)
    requires
        length_fits(model, n),
        shorter <= n,
    ensures
        length_fits(model, shorter),
{
    let hidden = model.wte.dims()[1];
    let rows = model.lm_head.dims()[0];
    assert(shorter * hidden <= n * hidden && shorter * rows <= n * rows) by (nonlinear_arith)
        requires
            shorter <= n,
    ;
    assert forall|i: int| 0 <= i < model.layers@.len() implies length_fits_layer(
        #[trigger] model.layers@[i],
        model.config.hidden_size,
        shorter,
    ) by {
        let layer = model.layers@[i];
        assert(length_fits_layer(layer, model.config.hidden_size, n));
        let a = 3 * model.config.hidden_size;
        let b = layer.mlp.fc_b.dims()[0];
        assert(shorter * a <= n * a && shorter * b <= n * b) by (nonlinear_arith)
            requires
                shorter <= n,
                a >= 0,
        ;
    }
}

impl<T: Copy + Default + PartialOrd + Add<Output = T> + Mul<Output = T>> Gpt2Model<T> {
    /// The model can find the token that follows these ids.
    pub open spec fn can_run(&self, ids: Seq<u32>) -> bool {
        &&& ids.len() > 0
        &&& ids_below(ids, self.wte.dims()[0])
        &&& self.config.vocab_size <= self.lm_head.dims()[0]
        &&& length_fits(*self, ids.len())
    }

    /// The token may be the next one.
    pub open spec fn may_pick<
        N: Fn(&[T], &[T], &[T], T) -> Vec<T>,
        S: Fn(&[T]) -> Vec<T>,
        G: Fn(T) -> T,
        F: Fn(usize) -> T,
    >(&self, ids: Seq<u32>, kernels: &DecoderKernels<N, S, G, F>, token: u32) -> bool {
        next_token_gives(*self, ids, *kernels, token)
    }

    /// Greedy autoregressive generation.
    ///
    /// Appends tokens to `prompt_ids` one at a time until `max_new_tokens`
    /// are generated or the EOS token is produced. Returns the full sequence
    /// (prompt + generated tokens).
    ///
    /// Uses full re-computation each step (no KV cache). For short outputs
    /// and small models this is practical.
    pub fn generate_greedy<
        N: Fn(&[T], &[T], &[T], T) -> Vec<T>,
        S: Fn(&[T]) -> Vec<T>,
        G: Fn(T) -> T,
        F: Fn(usize) -> T,
    >(
        &self,
        prompt_ids: &[u32],
        max_new_tokens: usize,
        kernels: &DecoderKernels<N, S, G, F>,
    ) -> (res: Vec<u32>)
        requires
            model_fits(*self),
            generation_fits(*self, prompt_ids@, max_new_tokens as nat, *kernels),
            can_add::<T>(),
            can_multiply::<T>(),
            can_order::<T>(),
            kernels_fit(*kernels),
        ensures
            greedy_gives(res@, *self, prompt_ids@, max_new_tokens as nat, *kernels),
    {
        self.try_generate_greedy(prompt_ids, max_new_tokens, kernels).unwrap()
    }

    /// Greedy autoregressive generation, as [`generate_greedy`](Self::generate_greedy);
    /// nothing where a token is to follow a sequence that the model cannot run on.
    pub fn try_generate_greedy<
        N: Fn(&[T], &[T], &[T], T) -> Vec<T>,
        S: Fn(&[T]) -> Vec<T>,
        G: Fn(T) -> T,
        F: Fn(usize) -> T,
    >(
        &self,
        prompt_ids: &[u32],
        max_new_tokens: usize,
        kernels: &DecoderKernels<N, S, G, F>,
    ) -> (res: Option<Vec<u32>>)
        requires
            model_fits(*self),
            can_add::<T>(),
            can_multiply::<T>(),
            can_order::<T>(),
            kernels_fit(*kernels),
        ensures
            match res {
                Some(out) => greedy_gives(
                    out@,
                    *self,
                    prompt_ids@,
                    max_new_tokens as nat,
                    *kernels,
                ),
                None => !generation_fits(*self, prompt_ids@, max_new_tokens as nat, *kernels),
            },
    {
        let ghost next = |ids: Seq<u32>, token: u32| self.may_pick(ids, kernels, token);
        let ghost ready = |ids: Seq<u32>| self.can_run(ids);
        let pick = |ids: &[u32]| -> (found: Option<u32>)
            ensures
                match found {
                    Some(token) => self.may_pick(ids@, kernels, token),
                    None => !self.can_run(ids@),
                },
            { self.next_token(ids, kernels) };
        generate(
            prompt_ids,
            max_new_tokens,
            Some(self.config.max_position_embeddings),
            self.eos_token_id,
            &pick,
            Ghost(next),
            Ghost(ready),
        )
    }

    /// The token that follows these ids, if the model can run on them.
    fn next_token<
        N: Fn(&[T], &[T], &[T], T) -> Vec<T>,
        S: Fn(&[T]) -> Vec<T>,
        G: Fn(T) -> T,
        F: Fn(usize) -> T,
    >(&self, ids: &[u32], kernels: &DecoderKernels<N, S, G, F>) -> (res: Option<u32>)
        requires
            model_fits(*self),
            can_add::<T>(),
            can_multiply::<T>(),
            can_order::<T>(),
            kernels_fit(*kernels),
        ensures
            match res {
                Some(token) => self.may_pick(ids@, kernels, token),
                None => !self.can_run(ids@),
            },
    {
        let n: usize = ids.len();
        let wte_shape = *self.wte.shape();
        let head_shape = *self.lm_head.shape();
        if n == 0 || !check_ids(ids, wte_shape.as_slice()[0]) || self.config.vocab_size
            > head_shape.as_slice()[0] || !self.accepts_length(n) {
            return None;
        }
        let logits = self.next_token_logits(ids, kernels);
        proof {
            lemma_product_1(logits.dims());
        }
        let best: usize = argmax(logits.data());
        Some(best as u32)
    }
}

} // verus!
