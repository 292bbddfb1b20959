//! From file to model: which tensor of a file becomes which weight.

use vstd::prelude::*;
use core::ops::{Add, Mul};
use crate::exact::{activates, at, is_exact, lemma_total_eq, total, weighted};
use crate::loader::load_error;
use crate::models::generate::{is_greatest, ordered_by};
use crate::models::held::{
    decodes_as, entries_lie_inside, held, is_held, lemma_loaded_is_held, lemma_name_parts,
};
use crate::models::plan::numbered;
use crate::models::renamed::Save;
use crate::models::t5::forward::{
    FfnTrace, T5Kernels, decode_gives, ffn_fits, ffn_gives, greedy_gives, last_row,
    lemma_greedy_tokens_are_greatest,
};
use crate::models::t5::meaning::{
    inner_gives, is_input, lemma_feed_forward, lemma_generation_ends,
};
use crate::models::t5::{
    T5Ffn, T5Model, decoder_prefix, encoder_prefix, ffn_name, is_decoder_layer_loaded,
    is_encoder_layer_loaded, is_ffn_loaded, is_model_loaded,
};
use crate::num::lemma_cell_index;
use crate::tensor::{Tensor, lemma_product_2};

verus! {

/// Which tensor of the file each weight of an encoder block is.
pub proof fn lemma_encoder_block_is_held<T, V: Fn(u32) -> T>(
    value: spec_fn(T) -> int,
    number: spec_fn(int) -> int,
    model: T5Model<T>,
    save: Save,
    decode: V,
    k: int,
)
    requires
        decodes_as(value, number, decode),
        entries_lie_inside(save),
        is_model_loaded(model, save.entries, save.bytes, decode),
        0 <= k < model.encoder_layers@.len(),
    ensures
        is_held(
            value,
            number,
            model.encoder_layers@[k].self_attn.q_w,
            save,
            numbered("encoder.block."@, k as nat, ".layer.0.SelfAttention.q.weight"@),
        ),
        is_held(
            value,
            number,
            model.encoder_layers@[k].self_attn.k_w,
            save,
            numbered("encoder.block."@, k as nat, ".layer.0.SelfAttention.k.weight"@),
        ),
        is_held(
            value,
            number,
            model.encoder_layers@[k].self_attn.v_w,
            save,
            numbered("encoder.block."@, k as nat, ".layer.0.SelfAttention.v.weight"@),
        ),
        is_held(
            value,
            number,
            model.encoder_layers@[k].self_attn.o_w,
            save,
            numbered("encoder.block."@, k as nat, ".layer.0.SelfAttention.o.weight"@),
        ),
        is_held(
            value,
            number,
            model.encoder_layers@[k].self_attn_ln,
            save,
            numbered("encoder.block."@, k as nat, ".layer.0.layer_norm.weight"@),
        ),
        is_held(
            value,
            number,
            model.encoder_layers@[k].ffn_ln,
            save,
            numbered("encoder.block."@, k as nat, ".layer.1.layer_norm.weight"@),
        ),
        model.encoder_layers@[k].self_attn.rel_bias matches Some(table) ==> k == 0 && is_held(
            value,
            number,
            table,
            save,
            "encoder.block.0.layer.0.SelfAttention.relative_attention_bias.weight"@,
        ),
        model.config.is_gated_act ==> is_held(
            value,
            number,
            model.encoder_layers@[k].ffn.wi_w,
            save,
            numbered("encoder.block."@, k as nat, ".layer.1.DenseActDense.wi_0.weight"@),
        ) && model.encoder_layers@[k].ffn.wi_gate_w is Some && is_held(
            value,
            number,
            model.encoder_layers@[k].ffn.wi_gate_w->0,
            save,
            numbered("encoder.block."@, k as nat, ".layer.1.DenseActDense.wi_1.weight"@),
        ) && is_held(
            value,
            number,
            model.encoder_layers@[k].ffn.wo_w,
            save,
            numbered("encoder.block."@, k as nat, ".layer.1.DenseActDense.wo.weight"@),
        ),
        !model.config.is_gated_act ==> is_held(
            value,
            number,
            model.encoder_layers@[k].ffn.wi_w,
            save,
            numbered("encoder.block."@, k as nat, ".layer.1.DenseReluDense.wi.weight"@),
        ) && model.encoder_layers@[k].ffn.wi_gate_w is None && is_held(
            value,
            number,
            model.encoder_layers@[k].ffn.wo_w,
            save,
            numbered("encoder.block."@, k as nat, ".layer.1.DenseReluDense.wo.weight"@),
        ),
{
    let layer = model.encoder_layers@[k];
    let gated = model.config.is_gated_act;
    let p = encoder_prefix(k as nat);
    let none = Seq::<char>::empty();
    assert(is_encoder_layer_loaded(layer, save.entries, save.bytes, p, k == 0, gated, decode));
    reveal_strlit(".");
    reveal_strlit("layer.0.SelfAttention.");
    reveal_strlit("k.weight");
    reveal_strlit("o.weight");
    reveal_strlit("q.weight");
    reveal_strlit("v.weight");
    reveal_strlit(".layer.0.SelfAttention.q.weight");
    reveal_strlit(".layer.0.SelfAttention.k.weight");
    reveal_strlit(".layer.0.SelfAttention.v.weight");
    reveal_strlit(".layer.0.SelfAttention.o.weight");
    reveal_strlit(".layer.0.layer_norm.weight");
    reveal_strlit(".layer.1.layer_norm.weight");
    reveal_strlit("layer.0.layer_norm.weight");
    reveal_strlit("layer.1.layer_norm.weight");
    lemma_name_parts(
        "encoder.block."@,
        k as nat,
        "."@,
        "layer.0.SelfAttention."@,
        "q.weight"@,
        none,
    );
    assert("."@ + "layer.0.SelfAttention."@ + "q.weight"@ =~= ".layer.0.SelfAttention.q.weight"@);
    lemma_loaded_is_held(
        value,
        number,
        layer.self_attn.q_w,
        save,
        p + "layer.0.SelfAttention."@ + "q.weight"@,
        decode,
    );
    lemma_name_parts(
        "encoder.block."@,
        k as nat,
        "."@,
        "layer.0.SelfAttention."@,
        "k.weight"@,
        none,
    );
    assert("."@ + "layer.0.SelfAttention."@ + "k.weight"@ =~= ".layer.0.SelfAttention.k.weight"@);
    lemma_loaded_is_held(
        value,
        number,
        layer.self_attn.k_w,
        save,
        p + "layer.0.SelfAttention."@ + "k.weight"@,
        decode,
    );
    lemma_name_parts(
        "encoder.block."@,
        k as nat,
        "."@,
        "layer.0.SelfAttention."@,
        "v.weight"@,
        none,
    );
    assert("."@ + "layer.0.SelfAttention."@ + "v.weight"@ =~= ".layer.0.SelfAttention.v.weight"@);
    lemma_loaded_is_held(
        value,
        number,
        layer.self_attn.v_w,
        save,
        p + "layer.0.SelfAttention."@ + "v.weight"@,
        decode,
    );
    lemma_name_parts(
        "encoder.block."@,
        k as nat,
        "."@,
        "layer.0.SelfAttention."@,
        "o.weight"@,
        none,
    );
    assert("."@ + "layer.0.SelfAttention."@ + "o.weight"@ =~= ".layer.0.SelfAttention.o.weight"@);
    lemma_loaded_is_held(
        value,
        number,
        layer.self_attn.o_w,
        save,
        p + "layer.0.SelfAttention."@ + "o.weight"@,
        decode,
    );
    lemma_name_parts("encoder.block."@, k as nat, "."@, "layer.0.layer_norm.weight"@, none, none);
    assert("."@ + "layer.0.layer_norm.weight"@ =~= ".layer.0.layer_norm.weight"@);
    lemma_loaded_is_held(
        value,
        number,
        layer.self_attn_ln,
        save,
        p + "layer.0.layer_norm.weight"@,
        decode,
    );
    lemma_name_parts("encoder.block."@, k as nat, "."@, "layer.1.layer_norm.weight"@, none, none);
    assert("."@ + "layer.1.layer_norm.weight"@ =~= ".layer.1.layer_norm.weight"@);
    lemma_loaded_is_held(
        value,
        number,
        layer.ffn_ln,
        save,
        p + "layer.1.layer_norm.weight"@,
        decode,
    );
    lemma_encoder_feed_forward_is_held(value, number, model, save, decode, k);
    lemma_encoder_table_is_held(value, number, model, save, decode, k);
}

proof fn lemma_encoder_feed_forward_is_held<T, V: Fn(u32) -> T>(
    value: spec_fn(T) -> int,
    number: spec_fn(int) -> int,
    model: T5Model<T>,
    save: Save,
    decode: V,
    k: int,
)
    requires
        decodes_as(value, number, decode),
        entries_lie_inside(save),
        is_model_loaded(model, save.entries, save.bytes, decode),
        0 <= k < model.encoder_layers@.len(),
    ensures
        model.config.is_gated_act ==> is_held(
            value,
            number,
            model.encoder_layers@[k].ffn.wi_w,
            save,
            numbered("encoder.block."@, k as nat, ".layer.1.DenseActDense.wi_0.weight"@),
        ) && model.encoder_layers@[k].ffn.wi_gate_w is Some && is_held(
            value,
            number,
            model.encoder_layers@[k].ffn.wi_gate_w->0,
            save,
            numbered("encoder.block."@, k as nat, ".layer.1.DenseActDense.wi_1.weight"@),
        ) && is_held(
            value,
            number,
            model.encoder_layers@[k].ffn.wo_w,
            save,
            numbered("encoder.block."@, k as nat, ".layer.1.DenseActDense.wo.weight"@),
        ),
        !model.config.is_gated_act ==> is_held(
            value,
            number,
            model.encoder_layers@[k].ffn.wi_w,
            save,
            numbered("encoder.block."@, k as nat, ".layer.1.DenseReluDense.wi.weight"@),
        ) && model.encoder_layers@[k].ffn.wi_gate_w is None && is_held(
            value,
            number,
            model.encoder_layers@[k].ffn.wo_w,
            save,
            numbered("encoder.block."@, k as nat, ".layer.1.DenseReluDense.wo.weight"@),
        ),
{
    let layer = model.encoder_layers@[k];
    let gated = model.config.is_gated_act;
    let p = encoder_prefix(k as nat);
    assert(is_encoder_layer_loaded(layer, save.entries, save.bytes, p, k == 0, gated, decode));
    let f = p + "layer.1."@ + ffn_name(gated);
    if gated {
        reveal_strlit(".");
        reveal_strlit("layer.1.");
        reveal_strlit("DenseActDense.");
        reveal_strlit("wi_0.weight");
        reveal_strlit(".layer.1.DenseActDense.wi_0.weight");
        lemma_name_parts(
            "encoder.block."@,
            k as nat,
            "."@,
            "layer.1."@,
            "DenseActDense."@,
            "wi_0.weight"@,
        );
        assert("."@ + "layer.1."@ + "DenseActDense."@ + "wi_0.weight"@
                =~= ".layer.1.DenseActDense.wi_0.weight"@);
        lemma_loaded_is_held(value, number, layer.ffn.wi_w, save, f + "wi_0.weight"@, decode);
        reveal_strlit("wi_1.weight");
        reveal_strlit(".layer.1.DenseActDense.wi_1.weight");
        lemma_name_parts(
            "encoder.block."@,
            k as nat,
            "."@,
            "layer.1."@,
            "DenseActDense."@,
            "wi_1.weight"@,
        );
        assert("."@ + "layer.1."@ + "DenseActDense."@ + "wi_1.weight"@
                =~= ".layer.1.DenseActDense.wi_1.weight"@);
        lemma_loaded_is_held(
            value,
            number,
            layer.ffn.wi_gate_w->0,
            save,
            f + "wi_1.weight"@,
            decode,
        );
        reveal_strlit("wo.weight");
        reveal_strlit(".layer.1.DenseActDense.wo.weight");
        lemma_name_parts(
            "encoder.block."@,
            k as nat,
            "."@,
            "layer.1."@,
            "DenseActDense."@,
            "wo.weight"@,
        );
        assert("."@ + "layer.1."@ + "DenseActDense."@ + "wo.weight"@
                =~= ".layer.1.DenseActDense.wo.weight"@);
        lemma_loaded_is_held(value, number, layer.ffn.wo_w, save, f + "wo.weight"@, decode);
    } else {
        reveal_strlit(".");
        reveal_strlit("layer.1.");
        reveal_strlit("DenseReluDense.");
        reveal_strlit("wi.weight");
        reveal_strlit(".layer.1.DenseReluDense.wi.weight");
        lemma_name_parts(
            "encoder.block."@,
            k as nat,
            "."@,
            "layer.1."@,
            "DenseReluDense."@,
            "wi.weight"@,
        );
        assert("."@ + "layer.1."@ + "DenseReluDense."@ + "wi.weight"@
                =~= ".layer.1.DenseReluDense.wi.weight"@);
        lemma_loaded_is_held(value, number, layer.ffn.wi_w, save, f + "wi.weight"@, decode);
        reveal_strlit("wo.weight");
        reveal_strlit(".layer.1.DenseReluDense.wo.weight");
        lemma_name_parts(
            "encoder.block."@,
            k as nat,
            "."@,
            "layer.1."@,
            "DenseReluDense."@,
            "wo.weight"@,
        );
        assert("."@ + "layer.1."@ + "DenseReluDense."@ + "wo.weight"@
                =~= ".layer.1.DenseReluDense.wo.weight"@);
        lemma_loaded_is_held(value, number, layer.ffn.wo_w, save, f + "wo.weight"@, decode);
    }
}

proof fn lemma_encoder_table_is_held<T, V: Fn(u32) -> T>(
    value: spec_fn(T) -> int,
    number: spec_fn(int) -> int,
    model: T5Model<T>,
    save: Save,
    decode: V,
    k: int,
)
    requires
        decodes_as(value, number, decode),
        entries_lie_inside(save),
        is_model_loaded(model, save.entries, save.bytes, decode),
        0 <= k < model.encoder_layers@.len(),
    ensures
        model.encoder_layers@[k].self_attn.rel_bias matches Some(table) ==> k == 0 && is_held(
            value,
            number,
            table,
            save,
            "encoder.block.0.layer.0.SelfAttention.relative_attention_bias.weight"@,
        ),
{
    let layer = model.encoder_layers@[k];
    let p = encoder_prefix(k as nat);
    assert(is_encoder_layer_loaded(
        layer,
        save.entries,
        save.bytes,
        p,
        k == 0,
        model.config.is_gated_act,
        decode,
    ));
    if let Some(table) = layer.self_attn.rel_bias {
        let a = "layer.0.SelfAttention."@;
        let b = "relative_attention_bias.weight"@;
        reveal_strlit("encoder.block.");
        reveal_strlit(".");
        reveal_strlit("layer.0.SelfAttention.");
        reveal_strlit("relative_attention_bias.weight");
        reveal_strlit("encoder.block.0.layer.0.SelfAttention.relative_attention_bias.weight");
        reveal_with_fuel(crate::text::decimal_text, 2);
        assert(crate::text::decimal_text(0) =~= seq!['0']);
        assert(p + a + b =~= "encoder.block.0.layer.0.SelfAttention.relative_attention_bias.weight"@);
        lemma_loaded_is_held(value, number, table, save, p + a + b, decode);
    }
}

/// Which tensor of the file each weight of a decoder block is.
pub proof fn lemma_decoder_block_is_held<T, V: Fn(u32) -> T>(
    value: spec_fn(T) -> int,
    number: spec_fn(int) -> int,
    model: T5Model<T>,
    save: Save,
    decode: V,
    k: int,
)
    requires
        decodes_as(value, number, decode),
        entries_lie_inside(save),
        is_model_loaded(model, save.entries, save.bytes, decode),
        0 <= k < model.decoder_layers@.len(),
    ensures
        is_held(
            value,
            number,
            model.decoder_layers@[k].self_attn.q_w,
            save,
            numbered("decoder.block."@, k as nat, ".layer.0.SelfAttention.q.weight"@),
        ),
        is_held(
            value,
            number,
            model.decoder_layers@[k].self_attn.k_w,
            save,
            numbered("decoder.block."@, k as nat, ".layer.0.SelfAttention.k.weight"@),
        ),
        is_held(
            value,
            number,
            model.decoder_layers@[k].self_attn.v_w,
            save,
            numbered("decoder.block."@, k as nat, ".layer.0.SelfAttention.v.weight"@),
        ),
        is_held(
            value,
            number,
            model.decoder_layers@[k].self_attn.o_w,
            save,
            numbered("decoder.block."@, k as nat, ".layer.0.SelfAttention.o.weight"@),
        ),
        is_held(
            value,
            number,
            model.decoder_layers@[k].cross_attn.q_w,
            save,
            numbered("decoder.block."@, k as nat, ".layer.1.EncDecAttention.q.weight"@),
        ),
        is_held(
            value,
            number,
            model.decoder_layers@[k].cross_attn.k_w,
            save,
            numbered("decoder.block."@, k as nat, ".layer.1.EncDecAttention.k.weight"@),
        ),
        is_held(
            value,
            number,
            model.decoder_layers@[k].cross_attn.v_w,
            save,
            numbered("decoder.block."@, k as nat, ".layer.1.EncDecAttention.v.weight"@),
        ),
        is_held(
            value,
            number,
            model.decoder_layers@[k].cross_attn.o_w,
            save,
            numbered("decoder.block."@, k as nat, ".layer.1.EncDecAttention.o.weight"@),
        ),
        is_held(
            value,
            number,
            model.decoder_layers@[k].self_attn_ln,
            save,
            numbered("decoder.block."@, k as nat, ".layer.0.layer_norm.weight"@),
        ),
        is_held(
            value,
            number,
            model.decoder_layers@[k].cross_attn_ln,
            save,
            numbered("decoder.block."@, k as nat, ".layer.1.layer_norm.weight"@),
        ),
        is_held(
            value,
            number,
            model.decoder_layers@[k].ffn_ln,
            save,
            numbered("decoder.block."@, k as nat, ".layer.2.layer_norm.weight"@),
        ),
        model.decoder_layers@[k].self_attn.rel_bias matches Some(table) ==> k == 0 && is_held(
            value,
            number,
            table,
            save,
            "decoder.block.0.layer.0.SelfAttention.relative_attention_bias.weight"@,
        ),
        model.config.is_gated_act ==> is_held(
            value,
            number,
            model.decoder_layers@[k].ffn.wi_w,
            save,
            numbered("decoder.block."@, k as nat, ".layer.2.DenseActDense.wi_0.weight"@),
        ) && model.decoder_layers@[k].ffn.wi_gate_w is Some && is_held(
            value,
            number,
            model.decoder_layers@[k].ffn.wi_gate_w->0,
            save,
            numbered("decoder.block."@, k as nat, ".layer.2.DenseActDense.wi_1.weight"@),
        ) && is_held(
            value,
            number,
            model.decoder_layers@[k].ffn.wo_w,
            save,
            numbered("decoder.block."@, k as nat, ".layer.2.DenseActDense.wo.weight"@),
        ),
        !model.config.is_gated_act ==> is_held(
            value,
            number,
            model.decoder_layers@[k].ffn.wi_w,
            save,
            numbered("decoder.block."@, k as nat, ".layer.2.DenseReluDense.wi.weight"@),
        ) && model.decoder_layers@[k].ffn.wi_gate_w is None && is_held(
            value,
            number,
            model.decoder_layers@[k].ffn.wo_w,
            save,
            numbered("decoder.block."@, k as nat, ".layer.2.DenseReluDense.wo.weight"@),
        ),
{
    let layer = model.decoder_layers@[k];
    let gated = model.config.is_gated_act;
    let p = decoder_prefix(k as nat);
    let none = Seq::<char>::empty();
    assert(is_decoder_layer_loaded(layer, save.entries, save.bytes, p, k == 0, gated, decode));
    reveal_strlit(".");
    reveal_strlit("layer.0.SelfAttention.");
    reveal_strlit("layer.1.EncDecAttention.");
    reveal_strlit("k.weight");
    reveal_strlit("o.weight");
    reveal_strlit("q.weight");
    reveal_strlit("v.weight");
    reveal_strlit(".layer.0.SelfAttention.q.weight");
    reveal_strlit(".layer.0.SelfAttention.k.weight");
    reveal_strlit(".layer.0.SelfAttention.v.weight");
    reveal_strlit(".layer.0.SelfAttention.o.weight");
    reveal_strlit(".layer.1.EncDecAttention.q.weight");
    reveal_strlit(".layer.1.EncDecAttention.k.weight");
    reveal_strlit(".layer.1.EncDecAttention.v.weight");
    reveal_strlit(".layer.1.EncDecAttention.o.weight");
    reveal_strlit(".layer.0.layer_norm.weight");
    reveal_strlit(".layer.1.layer_norm.weight");
    reveal_strlit(".layer.2.layer_norm.weight");
    reveal_strlit("layer.0.layer_norm.weight");
    reveal_strlit("layer.1.layer_norm.weight");
    reveal_strlit("layer.2.layer_norm.weight");
    lemma_name_parts(
        "decoder.block."@,
        k as nat,
        "."@,
        "layer.0.SelfAttention."@,
        "q.weight"@,
        none,
    );
    assert("."@ + "layer.0.SelfAttention."@ + "q.weight"@ =~= ".layer.0.SelfAttention.q.weight"@);
    lemma_loaded_is_held(
        value,
        number,
        layer.self_attn.q_w,
        save,
        p + "layer.0.SelfAttention."@ + "q.weight"@,
        decode,
    );
    lemma_name_parts(
        "decoder.block."@,
        k as nat,
        "."@,
        "layer.0.SelfAttention."@,
        "k.weight"@,
        none,
    );
    assert("."@ + "layer.0.SelfAttention."@ + "k.weight"@ =~= ".layer.0.SelfAttention.k.weight"@);
    lemma_loaded_is_held(
        value,
        number,
        layer.self_attn.k_w,
        save,
        p + "layer.0.SelfAttention."@ + "k.weight"@,
        decode,
    );
    lemma_name_parts(
        "decoder.block."@,
        k as nat,
        "."@,
        "layer.0.SelfAttention."@,
        "v.weight"@,
        none,
    );
    assert("."@ + "layer.0.SelfAttention."@ + "v.weight"@ =~= ".layer.0.SelfAttention.v.weight"@);
    lemma_loaded_is_held(
        value,
        number,
        layer.self_attn.v_w,
        save,
        p + "layer.0.SelfAttention."@ + "v.weight"@,
        decode,
    );
    lemma_name_parts(
        "decoder.block."@,
        k as nat,
        "."@,
        "layer.0.SelfAttention."@,
        "o.weight"@,
        none,
    );
    assert("."@ + "layer.0.SelfAttention."@ + "o.weight"@ =~= ".layer.0.SelfAttention.o.weight"@);
    lemma_loaded_is_held(
        value,
        number,
        layer.self_attn.o_w,
        save,
        p + "layer.0.SelfAttention."@ + "o.weight"@,
        decode,
    );
    lemma_name_parts(
        "decoder.block."@,
        k as nat,
        "."@,
        "layer.1.EncDecAttention."@,
        "q.weight"@,
        none,
    );
    assert("."@ + "layer.1.EncDecAttention."@ + "q.weight"@ =~= ".layer.1.EncDecAttention.q.weight"@);
    lemma_loaded_is_held(
        value,
        number,
        layer.cross_attn.q_w,
        save,
        p + "layer.1.EncDecAttention."@ + "q.weight"@,
        decode,
    );
    lemma_name_parts(
        "decoder.block."@,
        k as nat,
        "."@,
        "layer.1.EncDecAttention."@,
        "k.weight"@,
        none,
    );
    assert("."@ + "layer.1.EncDecAttention."@ + "k.weight"@ =~= ".layer.1.EncDecAttention.k.weight"@);
    lemma_loaded_is_held(
        value,
        number,
        layer.cross_attn.k_w,
        save,
        p + "layer.1.EncDecAttention."@ + "k.weight"@,
        decode,
    );
    lemma_name_parts(
        "decoder.block."@,
        k as nat,
        "."@,
        "layer.1.EncDecAttention."@,
        "v.weight"@,
        none,
    );
    assert("."@ + "layer.1.EncDecAttention."@ + "v.weight"@ =~= ".layer.1.EncDecAttention.v.weight"@);
    lemma_loaded_is_held(
        value,
        number,
        layer.cross_attn.v_w,
        save,
        p + "layer.1.EncDecAttention."@ + "v.weight"@,
        decode,
    );
    lemma_name_parts(
        "decoder.block."@,
        k as nat,
        "."@,
        "layer.1.EncDecAttention."@,
        "o.weight"@,
        none,
    );
    assert("."@ + "layer.1.EncDecAttention."@ + "o.weight"@ =~= ".layer.1.EncDecAttention.o.weight"@);
    lemma_loaded_is_held(
        value,
        number,
        layer.cross_attn.o_w,
        save,
        p + "layer.1.EncDecAttention."@ + "o.weight"@,
        decode,
    );
    lemma_name_parts("decoder.block."@, k as nat, "."@, "layer.0.layer_norm.weight"@, none, none);
    assert("."@ + "layer.0.layer_norm.weight"@ =~= ".layer.0.layer_norm.weight"@);
    lemma_loaded_is_held(
        value,
        number,
        layer.self_attn_ln,
        save,
        p + "layer.0.layer_norm.weight"@,
        decode,
    );
    lemma_name_parts("decoder.block."@, k as nat, "."@, "layer.1.layer_norm.weight"@, none, none);
    assert("."@ + "layer.1.layer_norm.weight"@ =~= ".layer.1.layer_norm.weight"@);
    lemma_loaded_is_held(
        value,
        number,
        layer.cross_attn_ln,
        save,
        p + "layer.1.layer_norm.weight"@,
        decode,
    );
    lemma_name_parts("decoder.block."@, k as nat, "."@, "layer.2.layer_norm.weight"@, none, none);
    assert("."@ + "layer.2.layer_norm.weight"@ =~= ".layer.2.layer_norm.weight"@);
    lemma_loaded_is_held(
        value,
        number,
        layer.ffn_ln,
        save,
        p + "layer.2.layer_norm.weight"@,
        decode,
    );
    lemma_decoder_feed_forward_is_held(value, number, model, save, decode, k);
    lemma_decoder_table_is_held(value, number, model, save, decode, k);
}

proof fn lemma_decoder_feed_forward_is_held<T, V: Fn(u32) -> T>(
    value: spec_fn(T) -> int,
    number: spec_fn(int) -> int,
    model: T5Model<T>,
    save: Save,
    decode: V,
    k: int,
)
    requires
        decodes_as(value, number, decode),
        entries_lie_inside(save),
        is_model_loaded(model, save.entries, save.bytes, decode),
        0 <= k < model.decoder_layers@.len(),
    ensures
        model.config.is_gated_act ==> is_held(
            value,
            number,
            model.decoder_layers@[k].ffn.wi_w,
            save,
            numbered("decoder.block."@, k as nat, ".layer.2.DenseActDense.wi_0.weight"@),
        ) && model.decoder_layers@[k].ffn.wi_gate_w is Some && is_held(
            value,
            number,
            model.decoder_layers@[k].ffn.wi_gate_w->0,
            save,
            numbered("decoder.block."@, k as nat, ".layer.2.DenseActDense.wi_1.weight"@),
        ) && is_held(
            value,
            number,
            model.decoder_layers@[k].ffn.wo_w,
            save,
            numbered("decoder.block."@, k as nat, ".layer.2.DenseActDense.wo.weight"@),
        ),
        !model.config.is_gated_act ==> is_held(
            value,
            number,
            model.decoder_layers@[k].ffn.wi_w,
            save,
            numbered("decoder.block."@, k as nat, ".layer.2.DenseReluDense.wi.weight"@),
        ) && model.decoder_layers@[k].ffn.wi_gate_w is None && is_held(
            value,
            number,
            model.decoder_layers@[k].ffn.wo_w,
            save,
            numbered("decoder.block."@, k as nat, ".layer.2.DenseReluDense.wo.weight"@),
        ),
{
    let layer = model.decoder_layers@[k];
    let gated = model.config.is_gated_act;
    let p = decoder_prefix(k as nat);
    assert(is_decoder_layer_loaded(layer, save.entries, save.bytes, p, k == 0, gated, decode));
    let f = p + "layer.2."@ + ffn_name(gated);
    if gated {
        reveal_strlit(".");
        reveal_strlit("layer.2.");
        reveal_strlit("DenseActDense.");
        reveal_strlit("wi_0.weight");
        reveal_strlit(".layer.2.DenseActDense.wi_0.weight");
        lemma_name_parts(
            "decoder.block."@,
            k as nat,
            "."@,
            "layer.2."@,
            "DenseActDense."@,
            "wi_0.weight"@,
        );
        assert("."@ + "layer.2."@ + "DenseActDense."@ + "wi_0.weight"@
                =~= ".layer.2.DenseActDense.wi_0.weight"@);
        lemma_loaded_is_held(value, number, layer.ffn.wi_w, save, f + "wi_0.weight"@, decode);
        reveal_strlit("wi_1.weight");
        reveal_strlit(".layer.2.DenseActDense.wi_1.weight");
        lemma_name_parts(
            "decoder.block."@,
            k as nat,
            "."@,
            "layer.2."@,
            "DenseActDense."@,
            "wi_1.weight"@,
        );
        assert("."@ + "layer.2."@ + "DenseActDense."@ + "wi_1.weight"@
                =~= ".layer.2.DenseActDense.wi_1.weight"@);
        lemma_loaded_is_held(
            value,
            number,
            layer.ffn.wi_gate_w->0,
            save,
            f + "wi_1.weight"@,
            decode,
        );
        reveal_strlit("wo.weight");
        reveal_strlit(".layer.2.DenseActDense.wo.weight");
        lemma_name_parts(
            "decoder.block."@,
            k as nat,
            "."@,
            "layer.2."@,
            "DenseActDense."@,
            "wo.weight"@,
        );
        assert("."@ + "layer.2."@ + "DenseActDense."@ + "wo.weight"@
                =~= ".layer.2.DenseActDense.wo.weight"@);
        lemma_loaded_is_held(value, number, layer.ffn.wo_w, save, f + "wo.weight"@, decode);
    } else {
        reveal_strlit(".");
        reveal_strlit("layer.2.");
        reveal_strlit("DenseReluDense.");
        reveal_strlit("wi.weight");
        reveal_strlit(".layer.2.DenseReluDense.wi.weight");
        lemma_name_parts(
            "decoder.block."@,
            k as nat,
            "."@,
            "layer.2."@,
            "DenseReluDense."@,
            "wi.weight"@,
        );
        assert("."@ + "layer.2."@ + "DenseReluDense."@ + "wi.weight"@
                =~= ".layer.2.DenseReluDense.wi.weight"@);
        lemma_loaded_is_held(value, number, layer.ffn.wi_w, save, f + "wi.weight"@, decode);
        reveal_strlit("wo.weight");
        reveal_strlit(".layer.2.DenseReluDense.wo.weight");
        lemma_name_parts(
            "decoder.block."@,
            k as nat,
            "."@,
            "layer.2."@,
            "DenseReluDense."@,
            "wo.weight"@,
        );
        assert("."@ + "layer.2."@ + "DenseReluDense."@ + "wo.weight"@
                =~= ".layer.2.DenseReluDense.wo.weight"@);
        lemma_loaded_is_held(value, number, layer.ffn.wo_w, save, f + "wo.weight"@, decode);
    }
}

proof fn lemma_decoder_table_is_held<T, V: Fn(u32) -> T>(
    value: spec_fn(T) -> int,
    number: spec_fn(int) -> int,
    model: T5Model<T>,
    save: Save,
    decode: V,
    k: int,
)
    requires
        decodes_as(value, number, decode),
        entries_lie_inside(save),
        is_model_loaded(model, save.entries, save.bytes, decode),
        0 <= k < model.decoder_layers@.len(),
    ensures
        model.decoder_layers@[k].self_attn.rel_bias matches Some(table) ==> k == 0 && is_held(
            value,
            number,
            table,
            save,
            "decoder.block.0.layer.0.SelfAttention.relative_attention_bias.weight"@,
        ),
{
    let layer = model.decoder_layers@[k];
    let p = decoder_prefix(k as nat);
    assert(is_decoder_layer_loaded(
        layer,
        save.entries,
        save.bytes,
        p,
        k == 0,
        model.config.is_gated_act,
        decode,
    ));
    if let Some(table) = layer.self_attn.rel_bias {
        let a = "layer.0.SelfAttention."@;
        let b = "relative_attention_bias.weight"@;
        reveal_strlit("decoder.block.");
        reveal_strlit(".");
        reveal_strlit("layer.0.SelfAttention.");
        reveal_strlit("relative_attention_bias.weight");
        reveal_strlit("decoder.block.0.layer.0.SelfAttention.relative_attention_bias.weight");
        reveal_with_fuel(crate::text::decimal_text, 2);
        assert(crate::text::decimal_text(0) =~= seq!['0']);
        assert(p + a + b =~= "decoder.block.0.layer.0.SelfAttention.relative_attention_bias.weight"@);
        lemma_loaded_is_held(value, number, table, save, p + a + b, decode);
    }
}

/// Which tensor of the file each weight outside the blocks is. The output
/// projection is the embedding where the file holds none that can be loaded.
pub proof fn lemma_outer_weights_are_held<T, V: Fn(u32) -> T>(
    value: spec_fn(T) -> int,
    number: spec_fn(int) -> int,
    model: T5Model<T>,
    save: Save,
    decode: V,
)
    requires
        decodes_as(value, number, decode),
        entries_lie_inside(save),
        is_model_loaded(model, save.entries, save.bytes, decode),
    ensures
        model.encoder_layers@.len() == model.config.num_encoder_layers,
        model.decoder_layers@.len() == model.config.num_decoder_layers,
        is_held(value, number, model.shared_emb, save, "shared.weight"@),
        is_held(
            value,
            number,
            model.encoder_final_ln,
            save,
            "encoder.final_layer_norm.weight"@,
        ),
        is_held(
            value,
            number,
            model.decoder_final_ln,
            save,
            "decoder.final_layer_norm.weight"@,
        ),
        is_held(
            value,
            number,
            model.lm_head,
            save,
            if load_error(save.entries, "lm_head.weight"@) is None {
                "lm_head.weight"@
            } else {
                "shared.weight"@
            },
        ),
{
    lemma_loaded_is_held(value, number, model.shared_emb, save, "shared.weight"@, decode);
    lemma_loaded_is_held(
        value,
        number,
        model.encoder_final_ln,
        save,
        "encoder.final_layer_norm.weight"@,
        decode,
    );
    lemma_loaded_is_held(
        value,
        number,
        model.decoder_final_ln,
        save,
        "decoder.final_layer_norm.weight"@,
        decode,
    );
    if load_error(save.entries, "lm_head.weight"@) is None {
        lemma_loaded_is_held(value, number, model.lm_head, save, "lm_head.weight"@, decode);
    }
}

/// A row of a matrix times row `f` of the matrix with `cols` columns that the file
/// holds under a name.
pub open spec fn weighted_by_file<T>(
    value: spec_fn(T) -> int,
    number: spec_fn(int) -> int,
    x: Tensor<T>,
    i: int,
    save: Save,
    name: Seq<char>,
    f: int,
) -> int {
    total(
        |l: int| at(value, x, i, l) * held(number, save, name, f * x.dims()[1] + l),
        x.dims()[1] as int,
    )
}

/// From file to result: a gated feed-forward block that is loaded from a file gives
/// `wo @ (gelu(wi_0 @ x) * (wi_1 @ x))`, with the matrices that the file holds under
/// these names.
pub proof fn lemma_gated_block_from_file<
    T: Default + Add<Output = T> + Mul<Output = T>,
    V: Fn(u32) -> T,
    N: Fn(&[T], &[T], T) -> Vec<T>,
    S: Fn(&[T]) -> Vec<T>,
    F: Fn(usize) -> T,
    G: Fn(T) -> T,
    R: Fn(T) -> T,
    D: Fn(usize, usize, usize, usize) -> usize,
>(
    value: spec_fn(T) -> int,
    number: spec_fn(int) -> int,
    ffn: T5Ffn<T>,
    save: Save,
    p: Seq<char>,
    decode: V,
    out: Tensor<T>,
    x: Tensor<T>,
    kernels: T5Kernels<N, S, F, G, R, D>,
    t: FfnTrace<T>,
    i: int,
)
    requires
        is_exact(value),
        decodes_as(value, number, decode),
        entries_lie_inside(save),
        is_ffn_loaded(ffn, save.entries, save.bytes, p, true, decode),
        is_input(x),
        ffn_fits(ffn, x.dims()[1], true),
        ffn_gives(out, x, ffn, true, kernels, t),
        0 <= i < x.dims()[0],
    ensures
        exists|active: Seq<T>|
            #![trigger active.len()]
            active.len() == ffn.wi_w.dims()[0] && (forall|f: int|
                0 <= f < active.len() ==> activates(
                    value,
                    kernels.gelu,
                    weighted_by_file(
                        value,
                        number,
                        x,
                        i,
                        save,
                        p + "DenseActDense.wi_0.weight"@,
                        f,
                    ),
                    #[trigger] active[f],
                )) && forall|o: int|
                0 <= o < x.dims()[1] ==> #[trigger] at(value, out, i, o) == total(
                    |f: int|
                        value(active[f]) * weighted_by_file(
                            value,
                            number,
                            x,
                            i,
                            save,
                            p + "DenseActDense.wi_1.weight"@,
                            f,
                        ) * held(
                            number,
                            save,
                            p + "DenseActDense.wo.weight"@,
                            o * active.len() + f,
                        ),
                    active.len() as int,
                ),
{
    let gate = ffn.wi_gate_w->0;
    let wide = ffn.wi_w.dims()[0] as int;
    let d = x.dims()[1] as int;
    let (n0, n1, no) = (
        p + "DenseActDense.wi_0.weight"@,
        p + "DenseActDense.wi_1.weight"@,
        p + "DenseActDense.wo.weight"@,
    );
    let f = p + "DenseActDense."@;
    reveal_strlit("DenseActDense.");
    reveal_strlit("wi_0.weight");
    reveal_strlit("wi_1.weight");
    reveal_strlit("wo.weight");
    reveal_strlit("DenseActDense.wi_0.weight");
    reveal_strlit("DenseActDense.wi_1.weight");
    reveal_strlit("DenseActDense.wo.weight");
    assert("DenseActDense."@ + "wi_0.weight"@ =~= "DenseActDense.wi_0.weight"@);
    assert("DenseActDense."@ + "wi_1.weight"@ =~= "DenseActDense.wi_1.weight"@);
    assert("DenseActDense."@ + "wo.weight"@ =~= "DenseActDense.wo.weight"@);
    assert(f + "wi_0.weight"@ =~= n0);
    assert(f + "wi_1.weight"@ =~= n1);
    assert(f + "wo.weight"@ =~= no);
    lemma_loaded_is_held(value, number, ffn.wi_w, save, n0, decode);
    lemma_loaded_is_held(value, number, gate, save, n1, decode);
    lemma_loaded_is_held(value, number, ffn.wo_w, save, no, decode);
    lemma_product_2(ffn.wi_w.dims());
    lemma_product_2(gate.dims());
    lemma_product_2(ffn.wo_w.dims());
    let inner = lemma_feed_forward(value, out, x, ffn, true, kernels, t, i);
    let active = Seq::new(
        wide as nat,
        |f: int|
            choose|a: T|
                activates(value, kernels.gelu, weighted(value, x, i, ffn.wi_w, f), a) && inner[f]
                    == #[trigger] value(a) * weighted(value, x, i, gate, f),
    );
    assert forall|f: int| 0 <= f < wide implies activates(
        value,
        kernels.gelu,
        weighted(value, x, i, ffn.wi_w, f),
        #[trigger] active[f],
    ) && inner[f] == value(active[f]) * weighted(value, x, i, gate, f) && weighted(
        value,
        x,
        i,
        ffn.wi_w,
        f,
    ) == weighted_by_file(value, number, x, i, save, n0, f) && weighted(value, x, i, gate, f)
        == weighted_by_file(value, number, x, i, save, n1, f) by {
        assert(inner_gives(value, inner[f], x, i, ffn.wi_w, Some(gate), kernels, f));
        let g0 = |l: int| at(value, x, i, l) * held(number, save, n0, f * d + l);
        let g1 = |l: int| at(value, x, i, l) * held(number, save, n1, f * d + l);
        let w0 = |l: int| at(value, x, i, l) * at(value, ffn.wi_w, f, l);
        let w1 = |l: int| at(value, x, i, l) * at(value, gate, f, l);
        assert forall|l: int| 0 <= l < d implies #[trigger] w0(l) == g0(l) by {
            lemma_cell_index(f, l, wide, d);
        }
        assert forall|l: int| 0 <= l < d implies #[trigger] w1(l) == g1(l) by {
            lemma_cell_index(f, l, wide, d);
        }
        lemma_total_eq(w0, g0, d);
        lemma_total_eq(w1, g1, d);
    }
    assert forall|o: int| 0 <= o < d implies #[trigger] at(value, out, i, o) == total(
        |f: int|
            value(active[f]) * weighted_by_file(value, number, x, i, save, n1, f) * held(
                number,
                save,
                no,
                o * active.len() + f,
            ),
        wide,
    ) by {
        let a = |f: int| inner[f] * at(value, ffn.wo_w, o, f);
        let b = |f: int|
            value(active[f]) * weighted_by_file(value, number, x, i, save, n1, f) * held(
                number,
                save,
                no,
                o * active.len() + f,
            );
        assert forall|f: int| 0 <= f < wide implies #[trigger] a(f) == b(f) by {
            lemma_cell_index(o, f, d, wide);
            let y = active[f];
        }
        lemma_total_eq(a, b, wide);
    }
    assert(active.len() == wide);
}

/// A model that is loaded from a file decodes from token 0 on and ends an answer with
/// token 1: each token follows the logits behind token 0 and the tokens before it,
/// and nothing but token 1 makes it stop before `max_new_tokens`.
pub proof fn lemma_loaded_generation_ends<
    T: Copy + Default + PartialOrd + Add<Output = T> + Mul<Output = T>,
    V: Fn(u32) -> T,
    N: Fn(&[T], &[T], T) -> Vec<T>,
    S: Fn(&[T]) -> Vec<T>,
    F: Fn(usize) -> T,
    G: Fn(T) -> T,
    R: Fn(T) -> T,
    D: Fn(usize, usize, usize, usize) -> usize,
>(
    model: T5Model<T>,
    save: Save,
    decode: V,
    out: Seq<u32>,
    encoder_out: Tensor<T>,
    max_new_tokens: nat,
    kernels: T5Kernels<N, S, F, G, R, D>,
    rank: spec_fn(T) -> int,
)
    requires
        is_model_loaded(model, save.entries, save.bytes, decode),
        greedy_gives(out, model, encoder_out, max_new_tokens, kernels),
        0 < model.config.vocab_size <= u32::MAX,
        ordered_by(rank),
    ensures
        out.len() <= max_new_tokens,
        forall|i: int| 0 <= i < out.len() - 1 ==> #[trigger] out[i] != 1,
        out.len() < max_new_tokens ==> out.len() > 0 && out.last() == 1,
        out.len() > 0 ==> exists|logits: Tensor<T>| #[trigger]
            decode_gives(logits, model, seq![0u32], encoder_out, kernels) && is_greatest(
                last_row(logits, model, 1),
                rank,
                out[0] as int,
            ),
{
    lemma_generation_ends(out, model, encoder_out, max_new_tokens, kernels);
    if out.len() > 0 {
        lemma_greedy_tokens_are_greatest(
            out,
            model,
            encoder_out,
            max_new_tokens,
            kernels,
            rank,
            0,
        );
        assert(seq![model.decoder_start_token_id] + out.take(0) =~= seq![0u32]);
    }
}

} // verus!
