//! Saves with and without the `transformer.` prefix hold the same model.

use vstd::prelude::*;
use core::ops::{Add, Mul};
use crate::loader::{entry_named, is_loaded};
use crate::models::gpt2::{
    Gpt2Attention, Gpt2Layer, Gpt2Mlp, Gpt2Model, attention_step, conv_step, detected_prefix,
    is_attention_loaded, is_conv_loaded, is_layer_loaded, is_mlp_loaded, is_model_loaded,
    layer_prefix, layer_step, layers_step, mlp_step, model_step,
};
use crate::models::gpt2::forward::{DecoderKernels, greedy_gives, logits_give};
use crate::models::gpt2::same::{
    gives_one_element, lemma_model_loaded_once, lemma_same_generation, lemma_same_logits, same_model,
};
use crate::models::plan::{optional_step, tensor_step};
use crate::models::renamed::{Save, alike, is_renamed, lemma_alike_loads, lemma_alike_steps};
use crate::tensor::Tensor;

verus! {

/// The name that a tensor has in a save with prefix. The output projection lies
/// outside the transformer and keeps its name.
pub open spec fn prefixed(name: Seq<char>) -> Seq<char> {
    if name == "lm_head.weight"@ {
        name
    } else {
        "transformer."@ + name
    }
}

/// Name by name, what `a` holds without prefix is what `b` holds with prefix.
pub open spec fn is_prefixed(a: Save, b: Save) -> bool {
    is_renamed(a, b, |name: Seq<char>| prefixed(name))
}

proof fn lemma_alike(a: Save, b: Save, name: Seq<char>)
    requires
        is_prefixed(a, b),
    ensures
        alike(a, name, b, prefixed(name)),
{
    let rename = |name: Seq<char>| prefixed(name);
    assert(alike(a, name, b, rename(name)));
}

/// The same transposed weights are loaded where tensors are alike.
proof fn lemma_alike_conv<T, F: Fn(u32) -> T>(
    a: Save,
    name: Seq<char>,
    b: Save,
    other: Seq<char>,
    weight: Tensor<T>,
    decode: F,
)
    requires
        alike(a, name, b, other),
    ensures
        is_conv_loaded(weight, a.entries, a.bytes, name, decode) == is_conv_loaded(
            weight,
            b.entries,
            b.bytes,
            other,
            decode,
        ),
{
    assert forall|stored: Tensor<T>|
        #![trigger is_loaded(stored, a.entries, a.bytes, name, decode)]
        #![trigger is_loaded(stored, b.entries, b.bytes, other, decode)]
        is_loaded(stored, a.entries, a.bytes, name, decode) == is_loaded(
            stored,
            b.entries,
            b.bytes,
            other,
            decode,
        ) by {
        lemma_alike_loads(a, name, b, other, stored, decode);
    }
}

/// Loading goes the same way for a tensor of `a` and the tensor of `b` whose name
/// has the prefix in front.
proof fn lemma_step(a: Save, b: Save, p: Seq<char>, q: Seq<char>, tail: Seq<char>)
    requires
        is_prefixed(a, b),
        q == "transformer."@ + p,
        p + tail != "lm_head.weight"@,
    ensures
        alike(a, p + tail, b, q + tail),
        tensor_step(a.entries, p + tail) == tensor_step(b.entries, q + tail),
        conv_step(a.entries, p + tail) == conv_step(b.entries, q + tail),
{
    assert(prefixed(p + tail) =~= q + tail);
    lemma_alike(a, b, p + tail);
    lemma_alike_steps(a, p + tail, b, q + tail);
}

/// The same tensor is loaded from `a` and, under the name with the prefix in
/// front, from `b`.
proof fn lemma_tensor<T, F: Fn(u32) -> T>(
    a: Save,
    b: Save,
    p: Seq<char>,
    q: Seq<char>,
    tail: Seq<char>,
    weight: Tensor<T>,
    decode: F,
)
    requires
        is_prefixed(a, b),
        q == "transformer."@ + p,
        p + tail != "lm_head.weight"@,
    ensures
        is_loaded(weight, a.entries, a.bytes, p + tail, decode) == is_loaded(
            weight,
            b.entries,
            b.bytes,
            q + tail,
            decode,
        ),
        is_conv_loaded(weight, a.entries, a.bytes, p + tail, decode) == is_conv_loaded(
            weight,
            b.entries,
            b.bytes,
            q + tail,
            decode,
        ),
{
    lemma_step(a, b, p, q, tail);
    lemma_alike_loads(a, p + tail, b, q + tail, weight, decode);
    lemma_alike_conv(a, p + tail, b, q + tail, weight, decode);
}

proof fn lemma_layer_names(p: Seq<char>)
    requires
        p.len() > 0,
        p[0] == 'h',
    ensures
        forall|tail: Seq<char>| #[trigger] (p + tail) != "lm_head.weight"@,
{
    reveal_strlit("lm_head.weight");
    assert forall|tail: Seq<char>| #[trigger] (p + tail) != "lm_head.weight"@ by {
        assert((p + tail)[0] == 'h');
    }
}

proof fn lemma_attention<T, F: Fn(u32) -> T>(
    a: Save,
    b: Save,
    p: Seq<char>,
    q: Seq<char>,
    attn: Gpt2Attention<T>,
    decode: F,
)
    requires
        is_prefixed(a, b),
        q == "transformer."@ + p,
        p.len() > 0,
        p[0] == 'h',
    ensures
        is_attention_loaded(attn, a.entries, a.bytes, p, decode) == is_attention_loaded(
            attn,
            b.entries,
            b.bytes,
            q,
            decode,
        ),
{
    lemma_layer_names(p);
    lemma_tensor(a, b, p, q, "attn.c_attn.weight"@, attn.c_attn_w, decode);
    lemma_tensor(a, b, p, q, "attn.c_attn.bias"@, attn.c_attn_b, decode);
    lemma_tensor(a, b, p, q, "attn.c_proj.weight"@, attn.c_proj_w, decode);
    lemma_tensor(a, b, p, q, "attn.c_proj.bias"@, attn.c_proj_b, decode);
}

proof fn lemma_mlp<T, F: Fn(u32) -> T>(
    a: Save,
    b: Save,
    p: Seq<char>,
    q: Seq<char>,
    mlp: Gpt2Mlp<T>,
    decode: F,
)
    requires
        is_prefixed(a, b),
        q == "transformer."@ + p,
        p.len() > 0,
        p[0] == 'h',
    ensures
        is_mlp_loaded(mlp, a.entries, a.bytes, p, decode) == is_mlp_loaded(
            mlp,
            b.entries,
            b.bytes,
            q,
            decode,
        ),
{
    lemma_layer_names(p);
    lemma_tensor(a, b, p, q, "mlp.c_fc.weight"@, mlp.fc_w, decode);
    lemma_tensor(a, b, p, q, "mlp.c_fc.bias"@, mlp.fc_b, decode);
    lemma_tensor(a, b, p, q, "mlp.c_proj.weight"@, mlp.proj_w, decode);
    lemma_tensor(a, b, p, q, "mlp.c_proj.bias"@, mlp.proj_b, decode);
}

proof fn lemma_layer_step(a: Save, b: Save, p: Seq<char>, q: Seq<char>)
    requires
        is_prefixed(a, b),
        q == "transformer."@ + p,
        p.len() > 0,
        p[0] == 'h',
    ensures
        layer_step(a.entries, p) == layer_step(b.entries, q),
{
    lemma_layer_names(p);
    lemma_step(a, b, p, q, "ln_1.weight"@);
    lemma_step(a, b, p, q, "ln_1.bias"@);
    lemma_step(a, b, p, q, "attn.c_attn.weight"@);
    lemma_step(a, b, p, q, "attn.c_attn.bias"@);
    lemma_step(a, b, p, q, "attn.c_proj.weight"@);
    lemma_step(a, b, p, q, "attn.c_proj.bias"@);
    assert(attention_step(a.entries, p) == attention_step(b.entries, q));
    lemma_step(a, b, p, q, "ln_2.weight"@);
    lemma_step(a, b, p, q, "ln_2.bias"@);
    lemma_step(a, b, p, q, "mlp.c_fc.weight"@);
    lemma_step(a, b, p, q, "mlp.c_fc.bias"@);
    lemma_step(a, b, p, q, "mlp.c_proj.weight"@);
    lemma_step(a, b, p, q, "mlp.c_proj.bias"@);
    assert(mlp_step(a.entries, p) == mlp_step(b.entries, q));
}

proof fn lemma_layer<T, F: Fn(u32) -> T>(
    a: Save,
    b: Save,
    p: Seq<char>,
    q: Seq<char>,
    layer: Gpt2Layer<T>,
    decode: F,
)
    requires
        is_prefixed(a, b),
        q == "transformer."@ + p,
        p.len() > 0,
        p[0] == 'h',
    ensures
        is_layer_loaded(layer, a.entries, a.bytes, p, decode) == is_layer_loaded(
            layer,
            b.entries,
            b.bytes,
            q,
            decode,
        ),
{
    lemma_layer_names(p);
    lemma_tensor(a, b, p, q, "ln_1.weight"@, layer.ln_1_w, decode);
    lemma_tensor(a, b, p, q, "ln_1.bias"@, layer.ln_1_b, decode);
    lemma_attention(a, b, p, q, layer.attn, decode);
    lemma_tensor(a, b, p, q, "ln_2.weight"@, layer.ln_2_w, decode);
    lemma_tensor(a, b, p, q, "ln_2.bias"@, layer.ln_2_b, decode);
    lemma_mlp(a, b, p, q, layer.mlp, decode);
}

proof fn lemma_layer_prefix(i: nat)
    ensures
        layer_prefix("transformer."@, i) == "transformer."@ + layer_prefix(Seq::empty(), i),
        layer_prefix(Seq::empty(), i).len() > 0,
        layer_prefix(Seq::empty(), i)[0] == 'h',
{
    reveal_strlit("h.");
    assert(layer_prefix("transformer."@, i) =~= "transformer."@ + layer_prefix(Seq::empty(), i));
}

proof fn lemma_layers_step(a: Save, b: Save, n: nat)
    requires
        is_prefixed(a, b),
    ensures
        layers_step(a.entries, Seq::empty(), n) == layers_step(b.entries, "transformer."@, n),
    decreases n,
{
    if n > 0 {
        let i = (n - 1) as nat;
        lemma_layers_step(a, b, i);
        lemma_layer_prefix(i);
        lemma_layer_step(
            a,
            b,
            layer_prefix(Seq::empty(), i),
            layer_prefix("transformer."@, i),
        );
    }
}

/// A save of the language model, whose names have the prefix, gives the same
/// model as a save of the bare transformer, whose names have none: loading meets
/// the same error, and the same models are loaded.
pub proof fn lemma_prefix_makes_no_difference<T, F: Fn(u32) -> T>(
    a: Save,
    b: Save,
    model: Gpt2Model<T>,
    decode: F,
)
    requires
        is_prefixed(a, b),
        entry_named(a.entries, "transformer.wte.weight"@) is None,
        entry_named(a.entries, "wte.weight"@) is None ==> entry_named(b.entries, "wte.weight"@) is None,
    ensures
        model_step(a.entries, model.config.num_hidden_layers as nat) == model_step(
            b.entries,
            model.config.num_hidden_layers as nat,
        ),
        is_model_loaded(model, a.entries, a.bytes, decode) == is_model_loaded(
            model,
            b.entries,
            b.bytes,
            decode,
        ),
{
    let p = Seq::<char>::empty();
    let t = "transformer."@;
    let n = model.config.num_hidden_layers as nat;
    reveal_strlit("transformer.");
    reveal_strlit("transformer.wte.weight");
    reveal_strlit("wte.weight");
    reveal_strlit("wpe.weight");
    reveal_strlit("ln_f.weight");
    reveal_strlit("ln_f.bias");
    reveal_strlit("lm_head.weight");
    assert("transformer.wte.weight"@ =~= t + "wte.weight"@);
    assert(p + "wte.weight"@ =~= "wte.weight"@);
    assert("wte.weight"@.len() == 10);
    lemma_alike(a, b, "wte.weight"@);
    lemma_alike(a, b, "lm_head.weight"@);
    lemma_alike_loads(a, "lm_head.weight"@, b, "lm_head.weight"@, model.lm_head, decode);
    if entry_named(a.entries, "wte.weight"@) is None {
        assert(detected_prefix(b.entries) =~= p);
    } else {
        assert(p + "ln_f.weight"@ =~= "ln_f.weight"@);
        assert("ln_f.weight"@[1] == 'n' && "lm_head.weight"@[1] == 'm');
        assert((p + "wpe.weight"@)[0] == 'w');
        assert((p + "ln_f.bias"@)[1] == 'n');
        assert(t =~= t + p);
        lemma_step(a, b, p, t, "wte.weight"@);
        lemma_step(a, b, p, t, "wpe.weight"@);
        lemma_step(a, b, p, t, "ln_f.weight"@);
        lemma_step(a, b, p, t, "ln_f.bias"@);
        lemma_tensor(a, b, p, t, "wte.weight"@, model.wte, decode);
        lemma_tensor(a, b, p, t, "wpe.weight"@, model.wpe, decode);
        lemma_tensor(a, b, p, t, "ln_f.weight"@, model.ln_f_w, decode);
        lemma_tensor(a, b, p, t, "ln_f.bias"@, model.ln_f_b, decode);
        assert(optional_step(a.entries, "lm_head.weight"@) == optional_step(
            b.entries,
            "lm_head.weight"@,
        ));
        lemma_layers_step(a, b, n);
        assert forall|i: int| 0 <= i < model.layers@.len() implies is_layer_loaded(
            #[trigger] model.layers@[i],
            a.entries,
            a.bytes,
            layer_prefix(p, i as nat),
            decode,
        ) == is_layer_loaded(
            model.layers@[i],
            b.entries,
            b.bytes,
            layer_prefix(t, i as nat),
            decode,
        ) by {
            lemma_layer_prefix(i as nat);
            lemma_layer(
                a,
                b,
                layer_prefix(p, i as nat),
                layer_prefix(t, i as nat),
                model.layers@[i],
                decode,
            );
        }
    }
}

/// Models loaded from a save with prefix and from one without it give the same
/// logits, for any ids, and generate the same.
pub proof fn lemma_prefix_keeps_logits<
    T: Copy + Default + PartialOrd + Add<Output = T> + Mul<Output = T>,
    N: Fn(&[T], &[T], &[T], T) -> Vec<T>,
    S: Fn(&[T]) -> Vec<T>,
    G: Fn(T) -> T,
    F: Fn(usize) -> T,
    V: Fn(u32) -> T,
>(
    a: Save,
    b: Save,
    bare: Gpt2Model<T>,
    model: Gpt2Model<T>,
    decode: V,
    ids: Seq<u32>,
    kernels: DecoderKernels<N, S, G, F>,
)
    requires
        is_prefixed(a, b),
        entry_named(a.entries, "transformer.wte.weight"@) is None,
        gives_one_element(decode),
        bare.config == model.config,
        is_model_loaded(bare, a.entries, a.bytes, decode),
        is_model_loaded(model, b.entries, b.bytes, decode),
    ensures
        same_model(bare, model),
        forall|out: Tensor<T>| #[trigger]
            logits_give(out, bare, ids, kernels) == #[trigger] logits_give(out, model, ids, kernels),
        forall|out: Seq<u32>, n: nat| #[trigger]
            greedy_gives(out, bare, ids, n, kernels) == #[trigger] greedy_gives(
                out,
                model,
                ids,
                n,
                kernels,
            ),
{
    reveal_strlit("wte.weight");
    assert(Seq::<char>::empty() + "wte.weight"@ =~= "wte.weight"@);
    lemma_prefix_makes_no_difference(a, b, model, decode);
    lemma_model_loaded_once(bare, model, a.entries, a.bytes, decode);
    assert forall|out: Tensor<T>| #[trigger]
        logits_give(out, bare, ids, kernels) == #[trigger] logits_give(
            out,
            model,
            ids,
            kernels,
        ) by {
        lemma_same_logits(out, bare, model, ids, kernels);
    }
    assert forall|out: Seq<u32>, n: nat| #[trigger]
        greedy_gives(out, bare, ids, n, kernels) == #[trigger] greedy_gives(
            out,
            model,
            ids,
            n,
            kernels,
        ) by {
        lemma_same_generation(out, bare, model, ids, n, kernels);
    }
}

} // verus!
