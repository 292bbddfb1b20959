//! Saves with and without a prefix hold the same model.

use vstd::prelude::*;
use crate::loader::{entry_named, is_loaded};
use crate::models::bert::{
    BertAttention, BertEmbeddings, BertFeedForward, BertLayer, BertModel, LinearWeight,
    are_embeddings_loaded, attention_step, detected_prefix, embeddings_step, ffn_step,
    is_attention_loaded, is_ffn_loaded, is_layer_loaded, is_linear_loaded, is_model_loaded,
    layer_prefix, layer_step, layers_step, linear_step, model_step, name_prefix, scale_name,
    zero_point_name,
};
use crate::models::plan::tensor_step;
use crate::models::renamed::{Save, alike, is_renamed, lemma_alike_loads, lemma_alike_steps};
use crate::tensor::Tensor;

verus! {

/// Name by name, what `a` holds is what `b` holds under the name with `t` in front.
pub open spec fn is_prefixed(a: Save, b: Save, t: Seq<char>) -> bool {
    is_renamed(a, b, |name: Seq<char>| t + name)
}

proof fn lemma_alike(a: Save, b: Save, t: Seq<char>, name: Seq<char>)
    requires
        is_prefixed(a, b, t),
    ensures
        alike(a, name, b, t + name),
{
    let rename = |name: Seq<char>| t + name;
    assert(alike(a, name, b, rename(name)));
}

/// A weight and its parameters are found under the names with prefix.
proof fn lemma_names(a: Save, b: Save, t: Seq<char>, p: Seq<char>, tail: Seq<char>)
    requires
        is_prefixed(a, b, t),
    ensures
        alike(a, p + tail, b, t + p + tail),
        alike(a, scale_name(p + tail), b, scale_name(t + p + tail)),
        alike(a, zero_point_name(p + tail), b, zero_point_name(t + p + tail)),
{
    lemma_alike(a, b, t, p + tail);
    lemma_alike(a, b, t, scale_name(p + tail));
    lemma_alike(a, b, t, zero_point_name(p + tail));
    assert(t + (p + tail) =~= t + p + tail);
    assert(t + scale_name(p + tail) =~= scale_name(t + p + tail));
    assert(t + zero_point_name(p + tail) =~= zero_point_name(t + p + tail));
}

/// Loading goes the same way for a tensor of `a` and the tensor of `b` whose name
/// has the prefix in front.
proof fn lemma_step(a: Save, b: Save, t: Seq<char>, p: Seq<char>, tail: Seq<char>)
    requires
        is_prefixed(a, b, t),
    ensures
        tensor_step(a.entries, p + tail) == tensor_step(b.entries, t + p + tail),
        linear_step(a.entries, p + tail) == linear_step(b.entries, t + p + tail),
{
    lemma_names(a, b, t, p, tail);
    lemma_alike_steps(a, p + tail, b, t + p + tail);
}

/// The same tensor is loaded from `a` and, under the name with the prefix in
/// front, from `b`.
proof fn lemma_tensor<T, F: Fn(u32) -> T>(
    a: Save,
    b: Save,
    t: Seq<char>,
    p: Seq<char>,
    tail: Seq<char>,
    weight: Tensor<T>,
    decode: F,
)
    requires
        is_prefixed(a, b, t),
    ensures
        is_loaded(weight, a.entries, a.bytes, p + tail, decode) == is_loaded(
            weight,
            b.entries,
            b.bytes,
            t + p + tail,
            decode,
        ),
{
    lemma_names(a, b, t, p, tail);
    lemma_alike_loads(a, p + tail, b, t + p + tail, weight, decode);
}

/// The same weight matrix is loaded from `a` and, under the name with the prefix
/// in front, from `b`.
proof fn lemma_linear<T, F: Fn(u32) -> T>(
    a: Save,
    b: Save,
    t: Seq<char>,
    p: Seq<char>,
    tail: Seq<char>,
    weight: LinearWeight<T>,
    decode: F,
)
    requires
        is_prefixed(a, b, t),
    ensures
        is_linear_loaded(weight, a.entries, a.bytes, p + tail, decode) == is_linear_loaded(
            weight,
            b.entries,
            b.bytes,
            t + p + tail,
            decode,
        ),
{
    lemma_names(a, b, t, p, tail);
    if let LinearWeight::F32(w) = weight {
        lemma_alike_loads(a, p + tail, b, t + p + tail, w, decode);
    }
}

proof fn lemma_embeddings<T, F: Fn(u32) -> T>(
    a: Save,
    b: Save,
    t: Seq<char>,
    e: BertEmbeddings<T>,
    decode: F,
)
    requires
        is_prefixed(a, b, t),
    ensures
        embeddings_step(a.entries, Seq::empty()) == embeddings_step(b.entries, t),
        are_embeddings_loaded(e, a.entries, a.bytes, Seq::empty(), decode)
            == are_embeddings_loaded(e, b.entries, b.bytes, t, decode),
{
    let p = Seq::<char>::empty();
    assert(t + p =~= t);
    lemma_step(a, b, t, p, "embeddings.word_embeddings.weight"@);
    lemma_step(a, b, t, p, "embeddings.position_embeddings.weight"@);
    lemma_step(a, b, t, p, "embeddings.token_type_embeddings.weight"@);
    lemma_step(a, b, t, p, "embeddings.LayerNorm.weight"@);
    lemma_step(a, b, t, p, "embeddings.LayerNorm.bias"@);
    lemma_tensor(a, b, t, p, "embeddings.word_embeddings.weight"@, e.word, decode);
    lemma_tensor(a, b, t, p, "embeddings.position_embeddings.weight"@, e.position, decode);
    lemma_tensor(a, b, t, p, "embeddings.token_type_embeddings.weight"@, e.token_type, decode);
    lemma_tensor(a, b, t, p, "embeddings.LayerNorm.weight"@, e.ln_gamma, decode);
    lemma_tensor(a, b, t, p, "embeddings.LayerNorm.bias"@, e.ln_beta, decode);
}

proof fn lemma_layer_step(a: Save, b: Save, t: Seq<char>, p: Seq<char>)
    requires
        is_prefixed(a, b, t),
    ensures
        layer_step(a.entries, p) == layer_step(b.entries, t + p),
{
    lemma_step(a, b, t, p, "attention.self.query.weight"@);
    lemma_step(a, b, t, p, "attention.self.key.weight"@);
    lemma_step(a, b, t, p, "attention.self.value.weight"@);
    lemma_step(a, b, t, p, "attention.output.dense.weight"@);
    lemma_step(a, b, t, p, "attention.self.query.bias"@);
    lemma_step(a, b, t, p, "attention.self.key.bias"@);
    lemma_step(a, b, t, p, "attention.self.value.bias"@);
    lemma_step(a, b, t, p, "attention.output.dense.bias"@);
    lemma_step(a, b, t, p, "attention.output.LayerNorm.weight"@);
    lemma_step(a, b, t, p, "attention.output.LayerNorm.bias"@);
    assert(attention_step(a.entries, p) == attention_step(b.entries, t + p));
    lemma_step(a, b, t, p, "intermediate.dense.weight"@);
    lemma_step(a, b, t, p, "output.dense.weight"@);
    lemma_step(a, b, t, p, "intermediate.dense.bias"@);
    lemma_step(a, b, t, p, "output.dense.bias"@);
    lemma_step(a, b, t, p, "output.LayerNorm.weight"@);
    lemma_step(a, b, t, p, "output.LayerNorm.bias"@);
    assert(ffn_step(a.entries, p) == ffn_step(b.entries, t + p));
}

proof fn lemma_attention<T, F: Fn(u32) -> T>(
    a: Save,
    b: Save,
    t: Seq<char>,
    p: Seq<char>,
    attn: BertAttention<T>,
    decode: F,
)
    requires
        is_prefixed(a, b, t),
    ensures
        is_attention_loaded(attn, a.entries, a.bytes, p, decode) == is_attention_loaded(
            attn,
            b.entries,
            b.bytes,
            t + p,
            decode,
        ),
{
    let s = attn.self_attn;
    lemma_linear(a, b, t, p, "attention.self.query.weight"@, s.wq, decode);
    lemma_linear(a, b, t, p, "attention.self.key.weight"@, s.wk, decode);
    lemma_linear(a, b, t, p, "attention.self.value.weight"@, s.wv, decode);
    lemma_linear(a, b, t, p, "attention.output.dense.weight"@, attn.wo, decode);
    lemma_tensor(a, b, t, p, "attention.self.query.bias"@, s.bq, decode);
    lemma_tensor(a, b, t, p, "attention.self.key.bias"@, s.bk, decode);
    lemma_tensor(a, b, t, p, "attention.self.value.bias"@, s.bv, decode);
    lemma_tensor(a, b, t, p, "attention.output.dense.bias"@, attn.bo, decode);
    lemma_tensor(a, b, t, p, "attention.output.LayerNorm.weight"@, attn.ln_gamma, decode);
    lemma_tensor(a, b, t, p, "attention.output.LayerNorm.bias"@, attn.ln_beta, decode);
}

proof fn lemma_ffn<T, F: Fn(u32) -> T>(
    a: Save,
    b: Save,
    t: Seq<char>,
    p: Seq<char>,
    ffn: BertFeedForward<T>,
    decode: F,
)
    requires
        is_prefixed(a, b, t),
    ensures
        is_ffn_loaded(ffn, a.entries, a.bytes, p, decode) == is_ffn_loaded(
            ffn,
            b.entries,
            b.bytes,
            t + p,
            decode,
        ),
{
    lemma_linear(a, b, t, p, "intermediate.dense.weight"@, ffn.w_inter, decode);
    lemma_linear(a, b, t, p, "output.dense.weight"@, ffn.w_out, decode);
    lemma_tensor(a, b, t, p, "intermediate.dense.bias"@, ffn.b_inter, decode);
    lemma_tensor(a, b, t, p, "output.dense.bias"@, ffn.b_out, decode);
    lemma_tensor(a, b, t, p, "output.LayerNorm.weight"@, ffn.ln_gamma, decode);
    lemma_tensor(a, b, t, p, "output.LayerNorm.bias"@, ffn.ln_beta, decode);
}

proof fn lemma_layer<T, F: Fn(u32) -> T>(
    a: Save,
    b: Save,
    t: Seq<char>,
    i: nat,
    layer: BertLayer<T>,
    decode: F,
)
    requires
        is_prefixed(a, b, t),
    ensures
        is_layer_loaded(layer, a.entries, a.bytes, layer_prefix(Seq::empty(), i), decode)
            == is_layer_loaded(layer, b.entries, b.bytes, layer_prefix(t, i), decode),
{
    let p = layer_prefix(Seq::empty(), i);
    assert(layer_prefix(t, i) =~= t + p);
    lemma_attention(a, b, t, p, layer.attention, decode);
    lemma_ffn(a, b, t, p, layer.ffn, decode);
}

proof fn lemma_layers_step(a: Save, b: Save, t: Seq<char>, n: nat)
    requires
        is_prefixed(a, b, t),
    ensures
        layers_step(a.entries, Seq::empty(), n) == layers_step(b.entries, t, n),
    decreases n,
{
    if n > 0 {
        let i = (n - 1) as nat;
        let p = layer_prefix(Seq::empty(), i);
        lemma_layers_step(a, b, t, i);
        lemma_layer_step(a, b, t, p);
        assert(layer_prefix(t, i) =~= t + p);
    }
}

/// A save whose names have a prefix, loaded with it, gives the same model as a
/// save whose names have none: loading meets the same error, and the same models
/// are loaded.
pub proof fn lemma_prefix_makes_no_difference<T, F: Fn(u32) -> T>(
    a: Save,
    b: Save,
    prefix: Seq<char>,
    model: BertModel<T>,
    decode: F,
)
    requires
        is_prefixed(a, b, name_prefix(prefix)),
    ensures
        model_step(a.entries, Seq::empty(), model.config.num_hidden_layers as nat) == model_step(
            b.entries,
            name_prefix(prefix),
            model.config.num_hidden_layers as nat,
        ),
        is_model_loaded(model, a.entries, a.bytes, Seq::empty(), decode) == is_model_loaded(
            model,
            b.entries,
            b.bytes,
            name_prefix(prefix),
            decode,
        ),
{
    let t = name_prefix(prefix);
    lemma_embeddings(a, b, t, model.embeddings, decode);
    lemma_layers_step(a, b, t, model.config.num_hidden_layers as nat);
    assert forall|i: int| 0 <= i < model.layers@.len() implies is_layer_loaded(
        #[trigger] model.layers@[i],
        a.entries,
        a.bytes,
        layer_prefix(Seq::empty(), i as nat),
        decode,
    ) == is_layer_loaded(
        model.layers@[i],
        b.entries,
        b.bytes,
        layer_prefix(t, i as nat),
        decode,
    ) by {
        lemma_layer(a, b, t, i as nat, model.layers@[i], decode);
    }
}

/// The prefix of the wrapper is found where the names have it and the save holds
/// word embeddings, and no prefix is found in the save without it.
pub proof fn lemma_prefix_is_detected(a: Save, b: Save)
    requires
        is_prefixed(a, b, name_prefix("bert"@)),
        entry_named(a.entries, "embeddings.word_embeddings.weight"@) is Some,
        entry_named(a.entries, "bert.embeddings.word_embeddings.weight"@) is None,
    ensures
        name_prefix(detected_prefix(a.entries)) == Seq::<char>::empty(),
        name_prefix(detected_prefix(b.entries)) == name_prefix("bert"@),
{
    let word = "embeddings.word_embeddings.weight"@;
    reveal_strlit("");
    reveal_strlit("bert");
    reveal_strlit(".");
    reveal_strlit("embeddings.word_embeddings.weight");
    reveal_strlit("bert.embeddings.word_embeddings.weight");
    assert(name_prefix("bert"@) + word =~= "bert.embeddings.word_embeddings.weight"@);
    lemma_alike(a, b, name_prefix("bert"@), word);
}

} // verus!
