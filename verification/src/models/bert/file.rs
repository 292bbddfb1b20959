//! From file to model: which tensor of a file becomes which weight.

use vstd::prelude::*;
use crate::loader::{Dtype, entry_named};
use crate::models::bert::{
    BertModel, LinearWeight, is_layer_loaded, is_linear_loaded, is_model_loaded, layer_prefix,
    scale_name, zero_point_name,
};
use crate::models::held::{
    decodes_as, entries_lie_inside, held, is_held, lemma_list_is_held, lemma_loaded_is_held,
    lemma_name_parts,
};
use crate::models::plan::numbered;
use crate::models::renamed::Save;

verus! {

/// What the names of the tensors start with: the prefix and a point, or nothing.
pub open spec fn names_start(prefix: Seq<char>) -> Seq<char> {
    if prefix.len() == 0 {
        prefix
    } else {
        prefix + "."@
    }
}

/// The weight that the file holds under this name: as numbers, or as bytes with
/// scales, and for unsigned bytes zero points, under names that are made of it.
pub open spec fn is_weight_held<T>(
    value: spec_fn(T) -> int,
    number: spec_fn(int) -> int,
    weight: LinearWeight<T>,
    save: Save,
    name: Seq<char>,
) -> bool {
    let entry = entry_named(save.entries, name)->0;
    &&& entry_named(save.entries, name) is Some
    &&& match weight {
        LinearWeight::F32(w) => entry.dtype == Dtype::F32 && is_held(value, number, w, save, name),
        LinearWeight::I8(w) => entry.dtype == Dtype::I8 && w.dims() == entry.shape && (forall|
            i: int,
        |
            0 <= i < w.values().len() ==> #[trigger] w.values()[i] == {
                let b = save.bytes[entry.data_start + i];
                if b < 128 {
                    b as int
                } else {
                    b - 256
                }
            }) && forall|i: int|
            0 <= i < w.scale_list().len() ==> value(#[trigger] w.scale_list()[i]) == held(
                number,
                save,
                name + ".scale"@,
                i,
            ),
        LinearWeight::U8(w) => entry.dtype == Dtype::U8 && w.dims() == entry.shape && (forall|
            i: int,
        |
            0 <= i < w.values().len() ==> #[trigger] w.values()[i] == save.bytes[entry.data_start
                + i]) && (forall|i: int|
            0 <= i < w.scale_list().len() ==> value(#[trigger] w.scale_list()[i]) == held(
                number,
                save,
                name + ".scale"@,
                i,
            )) && forall|i: int|
            0 <= i < w.zero_point_list().len() ==> #[trigger] w.zero_point_list()[i]
                == save.bytes[entry_named(save.entries, name + ".zero_point"@)->0.data_start + i],
    }
}

/// A weight that is loaded under a name is the one that the file holds there.
proof fn lemma_weight_is_held<T, V: Fn(u32) -> T>(
    value: spec_fn(T) -> int,
    number: spec_fn(int) -> int,
    weight: LinearWeight<T>,
    save: Save,
    name: Seq<char>,
    decode: V,
)
    requires
        decodes_as(value, number, decode),
        entries_lie_inside(save),
        is_linear_loaded(weight, save.entries, save.bytes, name, decode),
    ensures
        is_weight_held(value, number, weight, save, name),
{
    let entry = entry_named(save.entries, name)->0;
    let raw = save.bytes.subrange(entry.data_start, entry.data_end);
    crate::models::held::lemma_named_entry_lies_inside(save, name);
    match weight {
        LinearWeight::F32(w) => {
            lemma_loaded_is_held(value, number, w, save, name, decode);
        },
        LinearWeight::I8(w) => {
            assert forall|i: int| 0 <= i < w.values().len() implies #[trigger] w.values()[i] == {
                let b = save.bytes[entry.data_start + i];
                if b < 128 {
                    b as int
                } else {
                    b - 256
                }
            } by {
                let b = raw[i];
                assert(b < 128 ==> b as i8 == b) by (bit_vector);
                assert(b >= 128 ==> b as i8 == b - 256) by (bit_vector);
            }
            lemma_list_is_held(value, number, w.scale_list(), save, scale_name(name), decode);
        },
        LinearWeight::U8(w) => {
            lemma_list_is_held(value, number, w.scale_list(), save, scale_name(name), decode);
            crate::models::held::lemma_named_entry_lies_inside(save, zero_point_name(name));
        },
    }
}

/// Which tensor of the file each weight of a layer is.
pub proof fn lemma_layer_is_held<T, V: Fn(u32) -> T>(
    value: spec_fn(T) -> int,
    number: spec_fn(int) -> int,
    model: BertModel<T>,
    save: Save,
    prefix: Seq<char>,
    decode: V,
    k: int,
)
    requires
        decodes_as(value, number, decode),
        entries_lie_inside(save),
        is_model_loaded(
            model,
            save.entries,
            save.bytes,
            if prefix.len() == 0 {
                prefix
            } else {
                prefix + "."@
            },
            decode,
        ),
        0 <= k < model.layers@.len(),
    ensures
        is_weight_held(
            value,
            number,
            model.layers@[k].attention.self_attn.wq,
            save,
            numbered(
                names_start(prefix) + "encoder.layer."@,
                k as nat,
                ".attention.self.query.weight"@,
            ),
        ),
        is_weight_held(
            value,
            number,
            model.layers@[k].attention.self_attn.wk,
            save,
            numbered(
                names_start(prefix) + "encoder.layer."@,
                k as nat,
                ".attention.self.key.weight"@,
            ),
        ),
        is_weight_held(
            value,
            number,
            model.layers@[k].attention.self_attn.wv,
            save,
            numbered(
                names_start(prefix) + "encoder.layer."@,
                k as nat,
                ".attention.self.value.weight"@,
            ),
        ),
        is_weight_held(
            value,
            number,
            model.layers@[k].attention.wo,
            save,
            numbered(
                names_start(prefix) + "encoder.layer."@,
                k as nat,
                ".attention.output.dense.weight"@,
            ),
        ),
        is_weight_held(
            value,
            number,
            model.layers@[k].ffn.w_inter,
            save,
            numbered(
                names_start(prefix) + "encoder.layer."@,
                k as nat,
                ".intermediate.dense.weight"@,
            ),
        ),
        is_weight_held(
            value,
            number,
            model.layers@[k].ffn.w_out,
            save,
            numbered(names_start(prefix) + "encoder.layer."@, k as nat, ".output.dense.weight"@),
        ),
        is_held(
            value,
            number,
            model.layers@[k].attention.self_attn.bq,
            save,
            numbered(
                names_start(prefix) + "encoder.layer."@,
                k as nat,
                ".attention.self.query.bias"@,
            ),
        ),
        is_held(
            value,
            number,
            model.layers@[k].attention.self_attn.bk,
            save,
            numbered(
                names_start(prefix) + "encoder.layer."@,
                k as nat,
                ".attention.self.key.bias"@,
            ),
        ),
        is_held(
            value,
            number,
            model.layers@[k].attention.self_attn.bv,
            save,
            numbered(
                names_start(prefix) + "encoder.layer."@,
                k as nat,
                ".attention.self.value.bias"@,
            ),
        ),
        is_held(
            value,
            number,
            model.layers@[k].attention.bo,
            save,
            numbered(
                names_start(prefix) + "encoder.layer."@,
                k as nat,
                ".attention.output.dense.bias"@,
            ),
        ),
        is_held(
            value,
            number,
            model.layers@[k].attention.ln_gamma,
            save,
            numbered(
                names_start(prefix) + "encoder.layer."@,
                k as nat,
                ".attention.output.LayerNorm.weight"@,
            ),
        ),
        is_held(
            value,
            number,
            model.layers@[k].attention.ln_beta,
            save,
            numbered(
                names_start(prefix) + "encoder.layer."@,
                k as nat,
                ".attention.output.LayerNorm.bias"@,
            ),
        ),
        is_held(
            value,
            number,
            model.layers@[k].ffn.b_inter,
            save,
            numbered(
                names_start(prefix) + "encoder.layer."@,
                k as nat,
                ".intermediate.dense.bias"@,
            ),
        ),
        is_held(
            value,
            number,
            model.layers@[k].ffn.b_out,
            save,
            numbered(names_start(prefix) + "encoder.layer."@, k as nat, ".output.dense.bias"@),
        ),
        is_held(
            value,
            number,
            model.layers@[k].ffn.ln_gamma,
            save,
            numbered(
                names_start(prefix) + "encoder.layer."@,
                k as nat,
                ".output.LayerNorm.weight"@,
            ),
        ),
        is_held(
            value,
            number,
            model.layers@[k].ffn.ln_beta,
            save,
            numbered(names_start(prefix) + "encoder.layer."@, k as nat, ".output.LayerNorm.bias"@),
        ),
{
    let layer = model.layers@[k];
    let start = names_start(prefix) + "encoder.layer."@;
    let p = layer_prefix(names_start(prefix), k as nat);
    let none = Seq::<char>::empty();
    assert(is_layer_loaded(layer, save.entries, save.bytes, p, decode));
    reveal_strlit(".");
    reveal_strlit("attention.self.query.bias");
    reveal_strlit("attention.self.key.bias");
    reveal_strlit("attention.self.value.bias");
    reveal_strlit("attention.output.dense.bias");
    reveal_strlit("attention.output.LayerNorm.weight");
    reveal_strlit("attention.output.LayerNorm.bias");
    reveal_strlit("intermediate.dense.bias");
    reveal_strlit("output.dense.bias");
    reveal_strlit("output.LayerNorm.weight");
    reveal_strlit("output.LayerNorm.bias");
    reveal_strlit("attention.self.query.weight");
    reveal_strlit("attention.self.key.weight");
    reveal_strlit("attention.self.value.weight");
    reveal_strlit("attention.output.dense.weight");
    reveal_strlit("intermediate.dense.weight");
    reveal_strlit("output.dense.weight");
    reveal_strlit(".attention.self.query.bias");
    reveal_strlit(".attention.self.key.bias");
    reveal_strlit(".attention.self.value.bias");
    reveal_strlit(".attention.output.dense.bias");
    reveal_strlit(".attention.output.LayerNorm.weight");
    reveal_strlit(".attention.output.LayerNorm.bias");
    reveal_strlit(".intermediate.dense.bias");
    reveal_strlit(".output.dense.bias");
    reveal_strlit(".output.LayerNorm.weight");
    reveal_strlit(".output.LayerNorm.bias");
    reveal_strlit(".attention.self.query.weight");
    reveal_strlit(".attention.self.key.weight");
    reveal_strlit(".attention.self.value.weight");
    reveal_strlit(".attention.output.dense.weight");
    reveal_strlit(".intermediate.dense.weight");
    reveal_strlit(".output.dense.weight");
    lemma_name_parts(start, k as nat, "."@, "attention.self.query.bias"@, none, none);
    assert("."@ + "attention.self.query.bias"@ =~= ".attention.self.query.bias"@);
    lemma_loaded_is_held(
        value,
        number,
        layer.attention.self_attn.bq,
        save,
        p + "attention.self.query.bias"@,
        decode,
    );
    lemma_name_parts(start, k as nat, "."@, "attention.self.key.bias"@, none, none);
    assert("."@ + "attention.self.key.bias"@ =~= ".attention.self.key.bias"@);
    lemma_loaded_is_held(
        value,
        number,
        layer.attention.self_attn.bk,
        save,
        p + "attention.self.key.bias"@,
        decode,
    );
    lemma_name_parts(start, k as nat, "."@, "attention.self.value.bias"@, none, none);
    assert("."@ + "attention.self.value.bias"@ =~= ".attention.self.value.bias"@);
    lemma_loaded_is_held(
        value,
        number,
        layer.attention.self_attn.bv,
        save,
        p + "attention.self.value.bias"@,
        decode,
    );
    lemma_name_parts(start, k as nat, "."@, "attention.output.dense.bias"@, none, none);
    assert("."@ + "attention.output.dense.bias"@ =~= ".attention.output.dense.bias"@);
    lemma_loaded_is_held(
        value,
        number,
        layer.attention.bo,
        save,
        p + "attention.output.dense.bias"@,
        decode,
    );
    lemma_name_parts(start, k as nat, "."@, "attention.output.LayerNorm.weight"@, none, none);
    assert("."@ + "attention.output.LayerNorm.weight"@ =~= ".attention.output.LayerNorm.weight"@);
    lemma_loaded_is_held(
        value,
        number,
        layer.attention.ln_gamma,
        save,
        p + "attention.output.LayerNorm.weight"@,
        decode,
    );
    lemma_name_parts(start, k as nat, "."@, "attention.output.LayerNorm.bias"@, none, none);
    assert("."@ + "attention.output.LayerNorm.bias"@ =~= ".attention.output.LayerNorm.bias"@);
    lemma_loaded_is_held(
        value,
        number,
        layer.attention.ln_beta,
        save,
        p + "attention.output.LayerNorm.bias"@,
        decode,
    );
    lemma_name_parts(start, k as nat, "."@, "intermediate.dense.bias"@, none, none);
    assert("."@ + "intermediate.dense.bias"@ =~= ".intermediate.dense.bias"@);
    lemma_loaded_is_held(
        value,
        number,
        layer.ffn.b_inter,
        save,
        p + "intermediate.dense.bias"@,
        decode,
    );
    lemma_name_parts(start, k as nat, "."@, "output.dense.bias"@, none, none);
    assert("."@ + "output.dense.bias"@ =~= ".output.dense.bias"@);
    lemma_loaded_is_held(value, number, layer.ffn.b_out, save, p + "output.dense.bias"@, decode);
    lemma_name_parts(start, k as nat, "."@, "output.LayerNorm.weight"@, none, none);
    assert("."@ + "output.LayerNorm.weight"@ =~= ".output.LayerNorm.weight"@);
    lemma_loaded_is_held(
        value,
        number,
        layer.ffn.ln_gamma,
        save,
        p + "output.LayerNorm.weight"@,
        decode,
    );
    lemma_name_parts(start, k as nat, "."@, "output.LayerNorm.bias"@, none, none);
    assert("."@ + "output.LayerNorm.bias"@ =~= ".output.LayerNorm.bias"@);
    lemma_loaded_is_held(
        value,
        number,
        layer.ffn.ln_beta,
        save,
        p + "output.LayerNorm.bias"@,
        decode,
    );
    lemma_name_parts(start, k as nat, "."@, "attention.self.query.weight"@, none, none);
    assert("."@ + "attention.self.query.weight"@ =~= ".attention.self.query.weight"@);
    lemma_weight_is_held(
        value,
        number,
        layer.attention.self_attn.wq,
        save,
        p + "attention.self.query.weight"@,
        decode,
    );
    lemma_name_parts(start, k as nat, "."@, "attention.self.key.weight"@, none, none);
    assert("."@ + "attention.self.key.weight"@ =~= ".attention.self.key.weight"@);
    lemma_weight_is_held(
        value,
        number,
        layer.attention.self_attn.wk,
        save,
        p + "attention.self.key.weight"@,
        decode,
    );
    lemma_name_parts(start, k as nat, "."@, "attention.self.value.weight"@, none, none);
    assert("."@ + "attention.self.value.weight"@ =~= ".attention.self.value.weight"@);
    lemma_weight_is_held(
        value,
        number,
        layer.attention.self_attn.wv,
        save,
        p + "attention.self.value.weight"@,
        decode,
    );
    lemma_name_parts(start, k as nat, "."@, "attention.output.dense.weight"@, none, none);
    assert("."@ + "attention.output.dense.weight"@ =~= ".attention.output.dense.weight"@);
    lemma_weight_is_held(
        value,
        number,
        layer.attention.wo,
        save,
        p + "attention.output.dense.weight"@,
        decode,
    );
    lemma_name_parts(start, k as nat, "."@, "intermediate.dense.weight"@, none, none);
    assert("."@ + "intermediate.dense.weight"@ =~= ".intermediate.dense.weight"@);
    lemma_weight_is_held(
        value,
        number,
        layer.ffn.w_inter,
        save,
        p + "intermediate.dense.weight"@,
        decode,
    );
    lemma_name_parts(start, k as nat, "."@, "output.dense.weight"@, none, none);
    assert("."@ + "output.dense.weight"@ =~= ".output.dense.weight"@);
    lemma_weight_is_held(value, number, layer.ffn.w_out, save, p + "output.dense.weight"@, decode);
}

/// Which tensor of the file each embedding is.
pub proof fn lemma_embeddings_are_held<T, V: Fn(u32) -> T>(
    value: spec_fn(T) -> int,
    number: spec_fn(int) -> int,
    model: BertModel<T>,
    save: Save,
    prefix: Seq<char>,
    decode: V,
)
    requires
        decodes_as(value, number, decode),
        entries_lie_inside(save),
        is_model_loaded(
            model,
            save.entries,
            save.bytes,
            if prefix.len() == 0 {
                prefix
            } else {
                prefix + "."@
            },
            decode,
        ),
    ensures
        model.layers@.len() == model.config.num_hidden_layers,
        is_held(
            value,
            number,
            model.embeddings.word,
            save,
            names_start(prefix) + "embeddings.word_embeddings.weight"@,
        ),
        is_held(
            value,
            number,
            model.embeddings.position,
            save,
            names_start(prefix) + "embeddings.position_embeddings.weight"@,
        ),
        is_held(
            value,
            number,
            model.embeddings.token_type,
            save,
            names_start(prefix) + "embeddings.token_type_embeddings.weight"@,
        ),
        is_held(
            value,
            number,
            model.embeddings.ln_gamma,
            save,
            names_start(prefix) + "embeddings.LayerNorm.weight"@,
        ),
        is_held(
            value,
            number,
            model.embeddings.ln_beta,
            save,
            names_start(prefix) + "embeddings.LayerNorm.bias"@,
        ),
{
    let e = model.embeddings;
    let p = names_start(prefix);
    lemma_loaded_is_held(
        value,
        number,
        e.word,
        save,
        p + "embeddings.word_embeddings.weight"@,
        decode,
    );
    lemma_loaded_is_held(
        value,
        number,
        e.position,
        save,
        p + "embeddings.position_embeddings.weight"@,
        decode,
    );
    lemma_loaded_is_held(
        value,
        number,
        e.token_type,
        save,
        p + "embeddings.token_type_embeddings.weight"@,
        decode,
    );
    lemma_loaded_is_held(
        value,
        number,
        e.ln_gamma,
        save,
        p + "embeddings.LayerNorm.weight"@,
        decode,
    );
    lemma_loaded_is_held(value, number, e.ln_beta, save, p + "embeddings.LayerNorm.bias"@, decode);
}

} // verus!
