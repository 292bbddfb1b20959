//! From file to model: which tensor of a file becomes which weight.

use vstd::prelude::*;
use core::ops::{Add, Mul};
use crate::exact::at;
use crate::loader::{entry_named, is_loaded, load_error};
use crate::models::gpt2::{
    Gpt2Model, detected_prefix, is_conv_loaded, is_layer_loaded, is_model_loaded, layer_prefix,
    transposed,
};
use crate::models::gpt2::forward::{DecoderKernels, greedy_gives};
use crate::models::gpt2::meaning::lemma_generation_ends;
use crate::models::held::{
    decodes_as, entries_lie_inside, held, is_held, lemma_loaded_is_held, lemma_name_parts,
};
use crate::models::plan::numbered;
use crate::models::renamed::Save;
use crate::num::lemma_cell_index;
use crate::tensor::{Tensor, lemma_product_2};

verus! {

/// What the names of the transformer's tensors start with.
pub open spec fn names_start(save: Save) -> Seq<char> {
    if entry_named(save.entries, "transformer.wte.weight"@) is Some {
        "transformer."@
    } else {
        ""@
    }
}

/// The matrix that the file holds under this name, with rows and columns swapped:
/// what goes from input `l` to output `o` is stored in row `l` and column `o`.
pub open spec fn is_held_swapped<T>(
    value: spec_fn(T) -> int,
    number: spec_fn(int) -> int,
    weight: Tensor<T>,
    save: Save,
    name: Seq<char>,
) -> bool {
    let shape = entry_named(save.entries, name)->0.shape;
    &&& entry_named(save.entries, name) is Some
    &&& weight.dims() == seq![shape[1], shape[0]]
    &&& forall|o: int, l: int|
        0 <= o < shape[1] && 0 <= l < shape[0] ==> #[trigger] at(value, weight, o, l) == held(
            number,
            save,
            name,
            l * shape[1] + o,
        )
}

/// A weight that is stored `[in, out]` holds what the file holds there, swapped.
proof fn lemma_conv_is_held<T, V: Fn(u32) -> T>(
    value: spec_fn(T) -> int,
    number: spec_fn(int) -> int,
    weight: Tensor<T>,
    save: Save,
    name: Seq<char>,
    decode: V,
)
    requires
        decodes_as(value, number, decode),
        entries_lie_inside(save),
        is_conv_loaded(weight, save.entries, save.bytes, name, decode),
        entry_named(save.entries, name)->0.shape.len() == 2,
    ensures
        is_held_swapped(value, number, weight, save, name),
{
    let stored = choose|stored: Tensor<T>| #[trigger]
        is_loaded(stored, save.entries, save.bytes, name, decode) && weight.dims() == seq![
            stored.dims()[1],
            stored.dims()[0],
        ] && weight.elems() == transposed(
            stored.elems(),
            stored.dims()[0] as int,
            stored.dims()[1] as int,
        );
    lemma_loaded_is_held(value, number, stored, save, name, decode);
    let (m, n) = (stored.dims()[0] as int, stored.dims()[1] as int);
    lemma_product_2(stored.dims());
    assert forall|o: int, l: int| 0 <= o < n && 0 <= l < m implies #[trigger] at(
        value,
        weight,
        o,
        l,
    ) == held(number, save, name, l * n + o) by {
        lemma_cell_index(o, l, n, m);
        lemma_cell_index(l, o, m, n);
        assert(weight.elems()[o * m + l] == stored.elems()[l * n + o]);
    }
}

/// The four matrices of a layer are stored as matrices.
pub open spec fn layer_matrices_are_stored(save: Save, k: int) -> bool {
    &&& entry_named(
        save.entries,
        numbered(names_start(save) + "h."@, k as nat, ".attn.c_attn.weight"@),
    )->0.shape.len() == 2
    &&& entry_named(
        save.entries,
        numbered(names_start(save) + "h."@, k as nat, ".attn.c_proj.weight"@),
    )->0.shape.len() == 2
    &&& entry_named(
        save.entries,
        numbered(names_start(save) + "h."@, k as nat, ".mlp.c_fc.weight"@),
    )->0.shape.len() == 2
    &&& entry_named(
        save.entries,
        numbered(names_start(save) + "h."@, k as nat, ".mlp.c_proj.weight"@),
    )->0.shape.len() == 2
}

/// Which tensor of the file each weight of a layer is. Matrices are stored `[in,
/// out]` and swapped.
pub proof fn lemma_layer_is_held<T, V: Fn(u32) -> T>(
    value: spec_fn(T) -> int,
    number: spec_fn(int) -> int,
    model: Gpt2Model<T>,
    save: Save,
    decode: V,
    k: int,
)
    requires
        decodes_as(value, number, decode),
        entries_lie_inside(save),
        is_model_loaded(model, save.entries, save.bytes, decode),
        0 <= k < model.layers@.len(),
        layer_matrices_are_stored(save, k),
    ensures
        is_held(
            value,
            number,
            model.layers@[k].ln_1_w,
            save,
            numbered(names_start(save) + "h."@, k as nat, ".ln_1.weight"@),
        ),
        is_held(
            value,
            number,
            model.layers@[k].ln_1_b,
            save,
            numbered(names_start(save) + "h."@, k as nat, ".ln_1.bias"@),
        ),
        is_held(
            value,
            number,
            model.layers@[k].attn.c_attn_b,
            save,
            numbered(names_start(save) + "h."@, k as nat, ".attn.c_attn.bias"@),
        ),
        is_held(
            value,
            number,
            model.layers@[k].attn.c_proj_b,
            save,
            numbered(names_start(save) + "h."@, k as nat, ".attn.c_proj.bias"@),
        ),
        is_held(
            value,
            number,
            model.layers@[k].ln_2_w,
            save,
            numbered(names_start(save) + "h."@, k as nat, ".ln_2.weight"@),
        ),
        is_held(
            value,
            number,
            model.layers@[k].ln_2_b,
            save,
            numbered(names_start(save) + "h."@, k as nat, ".ln_2.bias"@),
        ),
        is_held(
            value,
            number,
            model.layers@[k].mlp.fc_b,
            save,
            numbered(names_start(save) + "h."@, k as nat, ".mlp.c_fc.bias"@),
        ),
        is_held(
            value,
            number,
            model.layers@[k].mlp.proj_b,
            save,
            numbered(names_start(save) + "h."@, k as nat, ".mlp.c_proj.bias"@),
        ),
        is_held_swapped(
            value,
            number,
            model.layers@[k].attn.c_attn_w,
            save,
            numbered(names_start(save) + "h."@, k as nat, ".attn.c_attn.weight"@),
        ),
        is_held_swapped(
            value,
            number,
            model.layers@[k].attn.c_proj_w,
            save,
            numbered(names_start(save) + "h."@, k as nat, ".attn.c_proj.weight"@),
        ),
        is_held_swapped(
            value,
            number,
            model.layers@[k].mlp.fc_w,
            save,
            numbered(names_start(save) + "h."@, k as nat, ".mlp.c_fc.weight"@),
        ),
        is_held_swapped(
            value,
            number,
            model.layers@[k].mlp.proj_w,
            save,
            numbered(names_start(save) + "h."@, k as nat, ".mlp.c_proj.weight"@),
        ),
{
    let layer = model.layers@[k];
    let start = names_start(save) + "h."@;
    let p = layer_prefix(detected_prefix(save.entries), k as nat);
    let none = Seq::<char>::empty();
    reveal_strlit("");
    assert(""@ =~= none);
    assert(detected_prefix(save.entries) == names_start(save));
    assert(is_layer_loaded(layer, save.entries, save.bytes, p, decode));
    reveal_strlit(".");
    reveal_strlit("ln_1.weight");
    reveal_strlit("ln_1.bias");
    reveal_strlit("attn.c_attn.bias");
    reveal_strlit("attn.c_proj.bias");
    reveal_strlit("ln_2.weight");
    reveal_strlit("ln_2.bias");
    reveal_strlit("mlp.c_fc.bias");
    reveal_strlit("mlp.c_proj.bias");
    reveal_strlit("attn.c_attn.weight");
    reveal_strlit("attn.c_proj.weight");
    reveal_strlit("mlp.c_fc.weight");
    reveal_strlit("mlp.c_proj.weight");
    reveal_strlit(".ln_1.weight");
    reveal_strlit(".ln_1.bias");
    reveal_strlit(".attn.c_attn.bias");
    reveal_strlit(".attn.c_proj.bias");
    reveal_strlit(".ln_2.weight");
    reveal_strlit(".ln_2.bias");
    reveal_strlit(".mlp.c_fc.bias");
    reveal_strlit(".mlp.c_proj.bias");
    reveal_strlit(".attn.c_attn.weight");
    reveal_strlit(".attn.c_proj.weight");
    reveal_strlit(".mlp.c_fc.weight");
    reveal_strlit(".mlp.c_proj.weight");
    lemma_name_parts(start, k as nat, "."@, "ln_1.weight"@, none, none);
    assert("."@ + "ln_1.weight"@ =~= ".ln_1.weight"@);
    lemma_loaded_is_held(value, number, layer.ln_1_w, save, p + "ln_1.weight"@, decode);
    lemma_name_parts(start, k as nat, "."@, "ln_1.bias"@, none, none);
    assert("."@ + "ln_1.bias"@ =~= ".ln_1.bias"@);
    lemma_loaded_is_held(value, number, layer.ln_1_b, save, p + "ln_1.bias"@, decode);
    lemma_name_parts(start, k as nat, "."@, "attn.c_attn.bias"@, none, none);
    assert("."@ + "attn.c_attn.bias"@ =~= ".attn.c_attn.bias"@);
    lemma_loaded_is_held(value, number, layer.attn.c_attn_b, save, p + "attn.c_attn.bias"@, decode);
    lemma_name_parts(start, k as nat, "."@, "attn.c_proj.bias"@, none, none);
    assert("."@ + "attn.c_proj.bias"@ =~= ".attn.c_proj.bias"@);
    lemma_loaded_is_held(value, number, layer.attn.c_proj_b, save, p + "attn.c_proj.bias"@, decode);
    lemma_name_parts(start, k as nat, "."@, "ln_2.weight"@, none, none);
    assert("."@ + "ln_2.weight"@ =~= ".ln_2.weight"@);
    lemma_loaded_is_held(value, number, layer.ln_2_w, save, p + "ln_2.weight"@, decode);
    lemma_name_parts(start, k as nat, "."@, "ln_2.bias"@, none, none);
    assert("."@ + "ln_2.bias"@ =~= ".ln_2.bias"@);
    lemma_loaded_is_held(value, number, layer.ln_2_b, save, p + "ln_2.bias"@, decode);
    lemma_name_parts(start, k as nat, "."@, "mlp.c_fc.bias"@, none, none);
    assert("."@ + "mlp.c_fc.bias"@ =~= ".mlp.c_fc.bias"@);
    lemma_loaded_is_held(value, number, layer.mlp.fc_b, save, p + "mlp.c_fc.bias"@, decode);
    lemma_name_parts(start, k as nat, "."@, "mlp.c_proj.bias"@, none, none);
    assert("."@ + "mlp.c_proj.bias"@ =~= ".mlp.c_proj.bias"@);
    lemma_loaded_is_held(value, number, layer.mlp.proj_b, save, p + "mlp.c_proj.bias"@, decode);
    lemma_name_parts(start, k as nat, "."@, "attn.c_attn.weight"@, none, none);
    assert("."@ + "attn.c_attn.weight"@ =~= ".attn.c_attn.weight"@);
    lemma_conv_is_held(value, number, layer.attn.c_attn_w, save, p + "attn.c_attn.weight"@, decode);
    lemma_name_parts(start, k as nat, "."@, "attn.c_proj.weight"@, none, none);
    assert("."@ + "attn.c_proj.weight"@ =~= ".attn.c_proj.weight"@);
    lemma_conv_is_held(value, number, layer.attn.c_proj_w, save, p + "attn.c_proj.weight"@, decode);
    lemma_name_parts(start, k as nat, "."@, "mlp.c_fc.weight"@, none, none);
    assert("."@ + "mlp.c_fc.weight"@ =~= ".mlp.c_fc.weight"@);
    lemma_conv_is_held(value, number, layer.mlp.fc_w, save, p + "mlp.c_fc.weight"@, decode);
    lemma_name_parts(start, k as nat, "."@, "mlp.c_proj.weight"@, none, none);
    assert("."@ + "mlp.c_proj.weight"@ =~= ".mlp.c_proj.weight"@);
    lemma_conv_is_held(value, number, layer.mlp.proj_w, save, p + "mlp.c_proj.weight"@, decode);
}

/// Which tensor of the file each weight outside the layers is. The output
/// projection is the token embedding where the file holds none that can be loaded.
pub proof fn lemma_outer_weights_are_held<T, V: Fn(u32) -> T>(
    value: spec_fn(T) -> int,
    number: spec_fn(int) -> int,
    model: Gpt2Model<T>,
    save: Save,
    decode: V,
)
    requires
        decodes_as(value, number, decode),
        entries_lie_inside(save),
        is_model_loaded(model, save.entries, save.bytes, decode),
    ensures
        model.layers@.len() == model.config.num_hidden_layers,
        is_held(value, number, model.wte, save, names_start(save) + "wte.weight"@),
        is_held(value, number, model.wpe, save, names_start(save) + "wpe.weight"@),
        is_held(value, number, model.ln_f_w, save, names_start(save) + "ln_f.weight"@),
        is_held(value, number, model.ln_f_b, save, names_start(save) + "ln_f.bias"@),
        is_held(
            value,
            number,
            model.lm_head,
            save,
            if load_error(save.entries, "lm_head.weight"@) is None {
                "lm_head.weight"@
            } else {
                names_start(save) + "wte.weight"@
            },
        ),
{
    let p = names_start(save);
    reveal_strlit("");
    assert(""@ =~= Seq::<char>::empty());
    assert(detected_prefix(save.entries) == p);
    lemma_loaded_is_held(value, number, model.wte, save, p + "wte.weight"@, decode);
    lemma_loaded_is_held(value, number, model.wpe, save, p + "wpe.weight"@, decode);
    lemma_loaded_is_held(value, number, model.ln_f_w, save, p + "ln_f.weight"@, decode);
    lemma_loaded_is_held(value, number, model.ln_f_b, save, p + "ln_f.bias"@, decode);
    if load_error(save.entries, "lm_head.weight"@) is None {
        lemma_loaded_is_held(value, number, model.lm_head, save, "lm_head.weight"@, decode);
    }
}

/// A decoder that is loaded from a file ends a text with token 50256, and nothing
/// but that token and its positions make it stop before `max_new_tokens`.
pub proof fn lemma_loaded_generation_ends<
    T: Copy + Default + PartialOrd + Add<Output = T> + Mul<Output = T>,
    V: Fn(u32) -> T,
    N: Fn(&[T], &[T], &[T], T) -> Vec<T>,
    S: Fn(&[T]) -> Vec<T>,
    G: Fn(T) -> T,
    F: Fn(usize) -> T,
>(
    model: Gpt2Model<T>,
    save: Save,
    decode: V,
    out: Seq<u32>,
    prompt_ids: Seq<u32>,
    max_new_tokens: nat,
    kernels: DecoderKernels<N, S, G, F>,
)
    requires
        is_model_loaded(model, save.entries, save.bytes, decode),
        greedy_gives(out, model, prompt_ids, max_new_tokens, kernels),
    ensures
        forall|i: int| prompt_ids.len() <= i < out.len() - 1 ==> #[trigger] out[i] != 50256,
        out.len() < prompt_ids.len() + max_new_tokens ==> out.len()
            >= model.config.max_position_embeddings || (out.len() > prompt_ids.len() && out.last()
            == 50256),
{
    lemma_generation_ends(out, model, prompt_ids, max_new_tokens, kernels);
    assert forall|i: int| prompt_ids.len() <= i < out.len() - 1 implies #[trigger] out[i]
        != 50256 by {
        assert(model.eos_token_id != Some(out[i]));
    }
}

} // verus!
