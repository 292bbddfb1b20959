//! Models with the same weights compute the same.

use vstd::prelude::*;
use core::ops::{Add, Mul};
use crate::header::EntryView;
use crate::loader::{decoded, entry_named, is_loaded, load_error};
use crate::models::forward::is_linear;
use crate::models::gpt2::forward::{
    DecoderKernels, EmbeddingTrace, LayerTrace, embeddings_give, forward_gives, greedy_gives,
    last_logits_give, layer_gives, layer_may_give, layers_give, logits_give, next_token_gives,
};
use crate::models::gpt2::{
    Gpt2Config, Gpt2Layer, Gpt2Model, detected_prefix, is_conv_loaded, is_layer_loaded,
    is_model_loaded, layer_prefix,
};
use crate::ops::layernorm::is_layer_norm;
use crate::ops::linear::with_bias;
use crate::ops::matmul::product_t_gives;
use crate::tensor::Tensor;

verus! {

/// Two tensors of the same shape with the same elements.
pub open spec fn same_values<T>(a: Tensor<T>, b: Tensor<T>) -> bool {
    a.dims() == b.dims() && a.elems() == b.elems()
}

/// Two layers with the same weights.
pub open spec fn same_layer<T>(a: Gpt2Layer<T>, b: Gpt2Layer<T>) -> bool {
    &&& same_values(a.ln_1_w, b.ln_1_w)
    &&& same_values(a.ln_1_b, b.ln_1_b)
    &&& same_values(a.attn.c_attn_w, b.attn.c_attn_w)
    &&& same_values(a.attn.c_attn_b, b.attn.c_attn_b)
    &&& same_values(a.attn.c_proj_w, b.attn.c_proj_w)
    &&& same_values(a.attn.c_proj_b, b.attn.c_proj_b)
    &&& same_values(a.ln_2_w, b.ln_2_w)
    &&& same_values(a.ln_2_b, b.ln_2_b)
    &&& same_values(a.mlp.fc_w, b.mlp.fc_w)
    &&& same_values(a.mlp.fc_b, b.mlp.fc_b)
    &&& same_values(a.mlp.proj_w, b.mlp.proj_w)
    &&& same_values(a.mlp.proj_b, b.mlp.proj_b)
}

/// Two models of the same configuration with the same weights.
pub open spec fn same_model<T>(a: Gpt2Model<T>, b: Gpt2Model<T>) -> bool {
    &&& a.config == b.config
    &&& a.eos_token_id == b.eos_token_id
    &&& same_values(a.wte, b.wte)
    &&& same_values(a.wpe, b.wpe)
    &&& same_values(a.ln_f_w, b.ln_f_w)
    &&& same_values(a.ln_f_b, b.ln_f_b)
    &&& same_values(a.lm_head, b.lm_head)
    &&& a.layers@.len() == b.layers@.len()
    &&& forall|i: int|
        0 <= i < a.layers@.len() ==> same_layer(#[trigger] a.layers@[i], #[trigger] b.layers@[i])
}

/// For the same word the same element comes out.
pub open spec fn gives_one_element<T, V: Fn(u32) -> T>(decode: V) -> bool {
    forall|word: u32, x: T, y: T| #[trigger]
        call_ensures(decode, (word,), x) && #[trigger] call_ensures(decode, (word,), y) ==> x == y
}

proof fn lemma_decoded_once<T, V: Fn(u32) -> T>(a: Seq<T>, b: Seq<T>, raw: Seq<u8>, decode: V)
    requires
        gives_one_element(decode),
        decoded(a, raw, decode),
        decoded(b, raw, decode),
    ensures
        a == b,
{
    assert forall|i: int| 0 <= i < a.len() implies a[i] == b[i] by {
        let x = a[i];
        let y = b[i];
    }
    assert(a =~= b);
}

proof fn lemma_loaded_once<T, V: Fn(u32) -> T>(
    a: Tensor<T>,
    b: Tensor<T>,
    entries: Seq<EntryView>,
    bytes: Seq<u8>,
    name: Seq<char>,
    decode: V,
)
    requires
        gives_one_element(decode),
        is_loaded(a, entries, bytes, name, decode),
        is_loaded(b, entries, bytes, name, decode),
    ensures
        same_values(a, b),
{
    let entry = entry_named(entries, name)->0;
    lemma_decoded_once(
        a.elems(),
        b.elems(),
        bytes.subrange(entry.data_start, entry.data_end),
        decode,
    );
}

proof fn lemma_conv_loaded_once<T, V: Fn(u32) -> T>(
    a: Tensor<T>,
    b: Tensor<T>,
    entries: Seq<EntryView>,
    bytes: Seq<u8>,
    name: Seq<char>,
    decode: V,
)
    requires
        gives_one_element(decode),
        is_conv_loaded(a, entries, bytes, name, decode),
        is_conv_loaded(b, entries, bytes, name, decode),
    ensures
        same_values(a, b),
{
    assert forall|x: Tensor<T>, y: Tensor<T>| #[trigger]
        is_loaded(x, entries, bytes, name, decode) && #[trigger] is_loaded(
            y,
            entries,
            bytes,
            name,
            decode,
        ) implies same_values(x, y) by {
        lemma_loaded_once(x, y, entries, bytes, name, decode);
    }
}

proof fn lemma_layer_loaded_once<T, V: Fn(u32) -> T>(
    a: Gpt2Layer<T>,
    b: Gpt2Layer<T>,
    entries: Seq<EntryView>,
    bytes: Seq<u8>,
    p: Seq<char>,
    decode: V,
)
    requires
        gives_one_element(decode),
        is_layer_loaded(a, entries, bytes, p, decode),
        is_layer_loaded(b, entries, bytes, p, decode),
    ensures
        same_layer(a, b),
{
    lemma_loaded_once(a.ln_1_w, b.ln_1_w, entries, bytes, p + "ln_1.weight"@, decode);
    lemma_loaded_once(a.ln_1_b, b.ln_1_b, entries, bytes, p + "ln_1.bias"@, decode);
    lemma_conv_loaded_once(a.attn.c_attn_w, b.attn.c_attn_w, entries, bytes, p + "attn.c_attn.weight"@, decode);
    lemma_loaded_once(a.attn.c_attn_b, b.attn.c_attn_b, entries, bytes, p + "attn.c_attn.bias"@, decode);
    lemma_conv_loaded_once(a.attn.c_proj_w, b.attn.c_proj_w, entries, bytes, p + "attn.c_proj.weight"@, decode);
    lemma_loaded_once(a.attn.c_proj_b, b.attn.c_proj_b, entries, bytes, p + "attn.c_proj.bias"@, decode);
    lemma_loaded_once(a.ln_2_w, b.ln_2_w, entries, bytes, p + "ln_2.weight"@, decode);
    lemma_loaded_once(a.ln_2_b, b.ln_2_b, entries, bytes, p + "ln_2.bias"@, decode);
    lemma_conv_loaded_once(a.mlp.fc_w, b.mlp.fc_w, entries, bytes, p + "mlp.c_fc.weight"@, decode);
    lemma_loaded_once(a.mlp.fc_b, b.mlp.fc_b, entries, bytes, p + "mlp.c_fc.bias"@, decode);
    lemma_conv_loaded_once(a.mlp.proj_w, b.mlp.proj_w, entries, bytes, p + "mlp.c_proj.weight"@, decode);
    lemma_loaded_once(a.mlp.proj_b, b.mlp.proj_b, entries, bytes, p + "mlp.c_proj.bias"@, decode);
}

/// A save holds one model: whatever is loaded from it, for one configuration, has
/// the same weights.
pub proof fn lemma_model_loaded_once<T, V: Fn(u32) -> T>(
    a: Gpt2Model<T>,
    b: Gpt2Model<T>,
    entries: Seq<EntryView>,
    bytes: Seq<u8>,
    decode: V,
)
    requires
        gives_one_element(decode),
        a.config == b.config,
        is_model_loaded(a, entries, bytes, decode),
        is_model_loaded(b, entries, bytes, decode),
    ensures
        same_model(a, b),
{
    let p = detected_prefix(entries);
    lemma_loaded_once(a.wte, b.wte, entries, bytes, p + "wte.weight"@, decode);
    lemma_loaded_once(a.wpe, b.wpe, entries, bytes, p + "wpe.weight"@, decode);
    lemma_loaded_once(a.ln_f_w, b.ln_f_w, entries, bytes, p + "ln_f.weight"@, decode);
    lemma_loaded_once(a.ln_f_b, b.ln_f_b, entries, bytes, p + "ln_f.bias"@, decode);
    if load_error(entries, "lm_head.weight"@) is None {
        lemma_loaded_once(a.lm_head, b.lm_head, entries, bytes, "lm_head.weight"@, decode);
    }
    assert forall|i: int| 0 <= i < a.layers@.len() implies same_layer(
        #[trigger] a.layers@[i],
        #[trigger] b.layers@[i],
    ) by {
        lemma_layer_loaded_once(
            a.layers@[i],
            b.layers@[i],
            entries,
            bytes,
            layer_prefix(p, i as nat),
            decode,
        );
    }
}

proof fn lemma_same_linear<T: Default + Add<Output = T> + Mul<Output = T>>(
    out: Tensor<T>,
    x: Tensor<T>,
    w: Tensor<T>,
    w2: Tensor<T>,
    b: Tensor<T>,
    b2: Tensor<T>,
)
    requires
        same_values(w, w2),
        same_values(b, b2),
    ensures
        is_linear(out, x, w, Some(&b)) == is_linear(out, x, w2, Some(&b2)),
{
    assert forall|y: Seq<T>|
        #![trigger with_bias(out.elems(), y, Some(&b))]
        #![trigger with_bias(out.elems(), y, Some(&b2))]
        with_bias(out.elems(), y, Some(&b)) == with_bias(out.elems(), y, Some(&b2)) by {}
}

proof fn lemma_same_layer_gives<
    T: Default + Add<Output = T> + Mul<Output = T>,
    N: Fn(&[T], &[T], &[T], T) -> Vec<T>,
    S: Fn(&[T]) -> Vec<T>,
    G: Fn(T) -> T,
    F: Fn(usize) -> T,
>(
    out: Tensor<T>,
    x: Tensor<T>,
    a: Gpt2Layer<T>,
    b: Gpt2Layer<T>,
    config: Gpt2Config<T>,
    kernels: DecoderKernels<N, S, G, F>,
    t: LayerTrace<T>,
)
    requires
        same_layer(a, b),
    ensures
        layer_gives(out, x, a, config, kernels, t) == layer_gives(out, x, b, config, kernels, t),
{
    lemma_same_linear(t.qkv, t.ln1, a.attn.c_attn_w, b.attn.c_attn_w, a.attn.c_attn_b, b.attn.c_attn_b);
    lemma_same_linear(t.attn, t.heads, a.attn.c_proj_w, b.attn.c_proj_w, a.attn.c_proj_b, b.attn.c_proj_b);
    lemma_same_linear(t.fc, t.ln2, a.mlp.fc_w, b.mlp.fc_w, a.mlp.fc_b, b.mlp.fc_b);
    lemma_same_linear(t.proj, t.active, a.mlp.proj_w, b.mlp.proj_w, a.mlp.proj_b, b.mlp.proj_b);
}

proof fn lemma_same_layer_may_give<
    T: Default + Add<Output = T> + Mul<Output = T>,
    N: Fn(&[T], &[T], &[T], T) -> Vec<T>,
    S: Fn(&[T]) -> Vec<T>,
    G: Fn(T) -> T,
    F: Fn(usize) -> T,
>(
    out: Tensor<T>,
    x: Tensor<T>,
    a: Gpt2Layer<T>,
    b: Gpt2Layer<T>,
    config: Gpt2Config<T>,
    kernels: DecoderKernels<N, S, G, F>,
)
    requires
        same_layer(a, b),
    ensures
        layer_may_give(out, x, a, config, kernels) == layer_may_give(out, x, b, config, kernels),
{
    assert forall|t: LayerTrace<T>|
        #![trigger layer_gives(out, x, a, config, kernels, t)]
        #![trigger layer_gives(out, x, b, config, kernels, t)]
        layer_gives(out, x, a, config, kernels, t) == layer_gives(out, x, b, config, kernels, t) by {
        lemma_same_layer_gives(out, x, a, b, config, kernels, t);
    }
}

proof fn lemma_same_layers_give<
    T: Default + Add<Output = T> + Mul<Output = T>,
    N: Fn(&[T], &[T], &[T], T) -> Vec<T>,
    S: Fn(&[T]) -> Vec<T>,
    G: Fn(T) -> T,
    F: Fn(usize) -> T,
>(
    states: Seq<Tensor<T>>,
    a: Gpt2Model<T>,
    b: Gpt2Model<T>,
    kernels: DecoderKernels<N, S, G, F>,
)
    requires
        same_model(a, b),
        states.len() == a.layers@.len() + 1,
    ensures
        layers_give(states, a, kernels) == layers_give(states, b, kernels),
{
    assert forall|i: int| 0 <= i < states.len() - 1 implies layer_may_give(
        states[i + 1],
        states[i],
        #[trigger] a.layers@[i],
        a.config,
        kernels,
    ) == layer_may_give(
        states[i + 1],
        states[i],
        #[trigger] b.layers@[i],
        b.config,
        kernels,
    ) by {
        lemma_same_layer_may_give(
            states[i + 1],
            states[i],
            a.layers@[i],
            b.layers@[i],
            a.config,
            kernels,
        );
    }
    if layers_give(states, a, kernels) {
        assert forall|i: int| 0 <= i < states.len() - 1 implies layer_may_give(
            states[i + 1],
            states[i],
            #[trigger] b.layers@[i],
            b.config,
            kernels,
        ) by {
            let layer = a.layers@[i];
        }
    }
    if layers_give(states, b, kernels) {
        assert forall|i: int| 0 <= i < states.len() - 1 implies layer_may_give(
            states[i + 1],
            states[i],
            #[trigger] a.layers@[i],
            a.config,
            kernels,
        ) by {
            let layer = b.layers@[i];
        }
    }
}

proof fn lemma_same_forward<
    T: Default + Add<Output = T> + Mul<Output = T>,
    N: Fn(&[T], &[T], &[T], T) -> Vec<T>,
    S: Fn(&[T]) -> Vec<T>,
    G: Fn(T) -> T,
    F: Fn(usize) -> T,
>(
    out: Tensor<T>,
    a: Gpt2Model<T>,
    b: Gpt2Model<T>,
    ids: Seq<u32>,
    kernels: DecoderKernels<N, S, G, F>,
)
    requires
        same_model(a, b),
        forward_gives(out, a, ids, kernels),
    ensures
        forward_gives(out, b, ids, kernels),
{
    let (states, t) = choose|states: Seq<Tensor<T>>, t: EmbeddingTrace<T>|
        #![trigger layers_give(states, a, kernels), embeddings_give(states[0], a, ids, t)]
        states.len() == a.layers@.len() + 1 && embeddings_give(states[0], a, ids, t)
            && layers_give(states, a, kernels) && is_layer_norm(
            out,
            states.last(),
            a.ln_f_w,
            a.ln_f_b,
            a.config.layer_norm_eps,
            kernels.norm,
        );
    lemma_same_layers_give(states, a, b, kernels);
    assert(embeddings_give(states[0], b, ids, t));
    assert(layers_give(states, b, kernels));
}

proof fn lemma_same_logits_one_way<
    T: Default + Add<Output = T> + Mul<Output = T>,
    N: Fn(&[T], &[T], &[T], T) -> Vec<T>,
    S: Fn(&[T]) -> Vec<T>,
    G: Fn(T) -> T,
    F: Fn(usize) -> T,
>(
    out: Tensor<T>,
    a: Gpt2Model<T>,
    b: Gpt2Model<T>,
    ids: Seq<u32>,
    kernels: DecoderKernels<N, S, G, F>,
)
    requires
        same_model(a, b),
        logits_give(out, a, ids, kernels),
    ensures
        logits_give(out, b, ids, kernels),
{
    let hidden = choose|hidden: Tensor<T>| #[trigger]
        forward_gives(hidden, a, ids, kernels) && product_t_gives(
            hidden.elems(),
            a.lm_head.elems(),
            ids.len() as int,
            a.wte.dims()[1] as int,
            a.lm_head.dims()[0] as int,
            out.elems(),
        );
    lemma_same_forward(hidden, a, b, ids, kernels);
}

/// Models with the same weights give the same logits.
pub proof fn lemma_same_logits<
    T: Default + Add<Output = T> + Mul<Output = T>,
    N: Fn(&[T], &[T], &[T], T) -> Vec<T>,
    S: Fn(&[T]) -> Vec<T>,
    G: Fn(T) -> T,
    F: Fn(usize) -> T,
>(
    out: Tensor<T>,
    a: Gpt2Model<T>,
    b: Gpt2Model<T>,
    ids: Seq<u32>,
    kernels: DecoderKernels<N, S, G, F>,
)
    requires
        same_model(a, b),
    ensures
        logits_give(out, a, ids, kernels) == logits_give(out, b, ids, kernels),
{
    if logits_give(out, a, ids, kernels) {
        lemma_same_logits_one_way(out, a, b, ids, kernels);
    }
    if logits_give(out, b, ids, kernels) {
        lemma_same_logits_one_way(out, b, a, ids, kernels);
    }
}

/// Models with the same weights give the same logits for the last position.
pub proof fn lemma_same_last_logits<
    T: Default + Add<Output = T> + Mul<Output = T>,
    N: Fn(&[T], &[T], &[T], T) -> Vec<T>,
    S: Fn(&[T]) -> Vec<T>,
    G: Fn(T) -> T,
    F: Fn(usize) -> T,
>(
    row: Seq<T>,
    a: Gpt2Model<T>,
    b: Gpt2Model<T>,
    ids: Seq<u32>,
    kernels: DecoderKernels<N, S, G, F>,
)
    requires
        same_model(a, b),
    ensures
        last_logits_give(row, a, ids, kernels) == last_logits_give(row, b, ids, kernels),
{
    assert forall|all: Tensor<T>|
        #![trigger logits_give(all, a, ids, kernels)]
        #![trigger logits_give(all, b, ids, kernels)]
        logits_give(all, a, ids, kernels) == logits_give(all, b, ids, kernels) by {
        lemma_same_logits(all, a, b, ids, kernels);
    }
}

/// Models with the same weights pick the same next tokens.
pub proof fn lemma_same_next_token<
    T: Copy + Default + PartialOrd + Add<Output = T> + Mul<Output = T>,
    N: Fn(&[T], &[T], &[T], T) -> Vec<T>,
    S: Fn(&[T]) -> Vec<T>,
    G: Fn(T) -> T,
    F: Fn(usize) -> T,
>(
    a: Gpt2Model<T>,
    b: Gpt2Model<T>,
    ids: Seq<u32>,
    kernels: DecoderKernels<N, S, G, F>,
    token: u32,
)
    requires
        same_model(a, b),
    ensures
        next_token_gives(a, ids, kernels, token) == next_token_gives(b, ids, kernels, token),
{
    assert forall|row: Seq<T>|
        #![trigger last_logits_give(row, a, ids, kernels)]
        #![trigger last_logits_give(row, b, ids, kernels)]
        last_logits_give(row, a, ids, kernels) == last_logits_give(row, b, ids, kernels) by {
        lemma_same_last_logits(row, a, b, ids, kernels);
    }
}

/// Models with the same weights generate the same.
pub proof fn lemma_same_generation<
    T: Copy + Default + PartialOrd + Add<Output = T> + Mul<Output = T>,
    N: Fn(&[T], &[T], &[T], T) -> Vec<T>,
    S: Fn(&[T]) -> Vec<T>,
    G: Fn(T) -> T,
    F: Fn(usize) -> T,
>(
    out: Seq<u32>,
    a: Gpt2Model<T>,
    b: Gpt2Model<T>,
    prompt_ids: Seq<u32>,
    max_new_tokens: nat,
    kernels: DecoderKernels<N, S, G, F>,
)
    requires
        same_model(a, b),
    ensures
        greedy_gives(out, a, prompt_ids, max_new_tokens, kernels) == greedy_gives(
            out,
            b,
            prompt_ids,
            max_new_tokens,
            kernels,
        ),
{
    let next = |ids: Seq<u32>, token: u32| a.may_pick(ids, &kernels, token);
    let other = |ids: Seq<u32>, token: u32| b.may_pick(ids, &kernels, token);
    assert forall|ids: Seq<u32>, token: u32| #[trigger] next(ids, token) == other(ids, token) by {
        lemma_same_next_token(a, b, ids, kernels, token);
    }
    assert(next =~= other);
}

} // verus!
