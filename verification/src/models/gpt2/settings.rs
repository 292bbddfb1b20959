//! From `config.json` to configuration: which field becomes which size.

use vstd::prelude::*;
use crate::config::meaning::{
    Field, all_wf, lemma_nothing_is_read, lemma_number_is_read, lemma_numeral_is_read, listed,
    lists_number, object_text,
};
use crate::models::gpt2::{Gpt2Config, gpt2_config_error, is_gpt2_config};
use crate::text::decimal_text;

verus! {

/// The configuration is the one that the object lists, field by field; a field that
/// is not listed has its default.
pub proof fn lemma_config_is_read<T, P: Fn(&str) -> Option<T>>(
    config: Gpt2Config<T>,
    fields: Seq<Field>,
    parse: P,
    default_eps: T,
)
    requires
        all_wf(fields),
        is_gpt2_config(config, object_text(fields), parse, default_eps),
    ensures
        forall|n: usize|
            listed(fields, "n_embd"@) == Some(#[trigger] decimal_text(n as nat))
                ==> config.hidden_size == n,
        forall|n: usize|
            listed(fields, "n_embd"@) is None && listed(fields, "hidden_size"@)
                == Some(#[trigger] decimal_text(n as nat)) ==> config.hidden_size == n,
        forall|n: usize|
            listed(fields, "n_layer"@) == Some(#[trigger] decimal_text(n as nat))
                ==> config.num_hidden_layers == n,
        forall|n: usize|
            listed(fields, "n_layer"@) is None && listed(fields, "num_hidden_layers"@)
                == Some(#[trigger] decimal_text(n as nat)) ==> config.num_hidden_layers == n,
        forall|n: usize|
            listed(fields, "n_head"@) == Some(#[trigger] decimal_text(n as nat))
                ==> config.num_attention_heads == n,
        forall|n: usize|
            listed(fields, "n_head"@) is None && listed(fields, "num_attention_heads"@)
                == Some(#[trigger] decimal_text(n as nat)) ==> config.num_attention_heads == n,
        forall|n: usize|
            listed(fields, "vocab_size"@) == Some(#[trigger] decimal_text(n as nat))
                ==> config.vocab_size == n,
        forall|n: usize|
            listed(fields, "n_inner"@) == Some(#[trigger] decimal_text(n as nat))
                ==> config.intermediate_size == n,
        listed(fields, "n_inner"@) is None && 4 * config.hidden_size <= usize::MAX
            ==> config.intermediate_size == 4 * config.hidden_size,
        forall|n: usize|
            listed(fields, "n_positions"@) == Some(#[trigger] decimal_text(n as nat))
                ==> config.max_position_embeddings == n,
        forall|n: usize|
            listed(fields, "n_positions"@) is None && listed(fields, "max_position_embeddings"@)
                == Some(#[trigger] decimal_text(n as nat)) ==> config.max_position_embeddings
                == n,
        listed(fields, "n_positions"@) is None
            && listed(fields, "max_position_embeddings"@) is None
            ==> config.max_position_embeddings == 1024,
        listed(fields, "layer_norm_epsilon"@) is None && listed(fields, "layer_norm_eps"@) is None
            ==> config.layer_norm_eps == default_eps,
{
    reveal_strlit("n_embd");
    reveal_strlit("hidden_size");
    reveal_strlit("n_layer");
    reveal_strlit("num_hidden_layers");
    reveal_strlit("n_head");
    reveal_strlit("num_attention_heads");
    reveal_strlit("vocab_size");
    reveal_strlit("n_inner");
    reveal_strlit("n_positions");
    reveal_strlit("max_position_embeddings");
    reveal_strlit("layer_norm_epsilon");
    reveal_strlit("layer_norm_eps");
    assert forall|n: usize|
        listed(fields, "n_embd"@) == Some(#[trigger] decimal_text(n as nat))
            implies config.hidden_size == n by {
        lemma_number_is_read(fields, "n_embd"@, n);
    }
    assert forall|n: usize|
        listed(fields, "n_embd"@) is None && listed(fields, "hidden_size"@)
            == Some(#[trigger] decimal_text(n as nat)) implies config.hidden_size == n by {
        lemma_number_is_read(fields, "hidden_size"@, n);
        lemma_nothing_is_read(fields, "n_embd"@);
    }
    assert forall|n: usize|
        listed(fields, "n_layer"@) == Some(#[trigger] decimal_text(n as nat))
            implies config.num_hidden_layers == n by {
        lemma_number_is_read(fields, "n_layer"@, n);
    }
    assert forall|n: usize|
        listed(fields, "n_layer"@) is None && listed(fields, "num_hidden_layers"@)
            == Some(#[trigger] decimal_text(n as nat)) implies config.num_hidden_layers == n by {
        lemma_number_is_read(fields, "num_hidden_layers"@, n);
        lemma_nothing_is_read(fields, "n_layer"@);
    }
    assert forall|n: usize|
        listed(fields, "n_head"@) == Some(#[trigger] decimal_text(n as nat))
            implies config.num_attention_heads == n by {
        lemma_number_is_read(fields, "n_head"@, n);
    }
    assert forall|n: usize|
        listed(fields, "n_head"@) is None && listed(fields, "num_attention_heads"@)
            == Some(#[trigger] decimal_text(n as nat)) implies config.num_attention_heads
            == n by {
        lemma_number_is_read(fields, "num_attention_heads"@, n);
        lemma_nothing_is_read(fields, "n_head"@);
    }
    assert forall|n: usize|
        listed(fields, "vocab_size"@) == Some(#[trigger] decimal_text(n as nat))
            implies config.vocab_size == n by {
        lemma_number_is_read(fields, "vocab_size"@, n);
    }
    assert forall|n: usize|
        listed(fields, "n_inner"@) == Some(#[trigger] decimal_text(n as nat))
            implies config.intermediate_size == n by {
        lemma_number_is_read(fields, "n_inner"@, n);
    }
    if listed(fields, "n_inner"@) is None {
        lemma_nothing_is_read(fields, "n_inner"@);
    }
    assert forall|n: usize|
        listed(fields, "n_positions"@) == Some(#[trigger] decimal_text(n as nat))
            implies config.max_position_embeddings == n by {
        lemma_number_is_read(fields, "n_positions"@, n);
    }
    assert forall|n: usize|
        listed(fields, "n_positions"@) is None && listed(fields, "max_position_embeddings"@)
            == Some(#[trigger] decimal_text(n as nat)) implies config.max_position_embeddings
            == n by {
        lemma_number_is_read(fields, "max_position_embeddings"@, n);
        lemma_nothing_is_read(fields, "n_positions"@);
    }
    if listed(fields, "n_positions"@) is None
        && listed(fields, "max_position_embeddings"@) is None {
        lemma_nothing_is_read(fields, "n_positions"@);
        lemma_nothing_is_read(fields, "max_position_embeddings"@);
    }
    if listed(fields, "layer_norm_epsilon"@) is None && listed(fields, "layer_norm_eps"@) is None {
        lemma_nothing_is_read(fields, "layer_norm_epsilon"@);
        lemma_nothing_is_read(fields, "layer_norm_eps"@);
    }
}

/// The epsilon is what `parse` makes of the numeral that the object lists as
/// `layer_norm_epsilon`, or else as `layer_norm_eps`, where it makes something of it.
pub proof fn lemma_epsilon_is_read<T, P: Fn(&str) -> Option<T>>(
    config: Gpt2Config<T>,
    fields: Seq<Field>,
    parse: P,
    default_eps: T,
    numeral: Seq<char>,
)
    requires
        all_wf(fields),
        is_gpt2_config(config, object_text(fields), parse, default_eps),
        numeral.len() > 0,
        forall|i: int|
            0 <= i < numeral.len() ==> {
                let c = #[trigger] numeral[i];
                '0' <= c <= '9' || c == '.' || c == '+' || c == '-' || c == 'e' || c == 'E'
            },
        forall|s: &str, v: Option<T>| #[trigger]
            call_ensures(parse, (s,), v) && s@ == numeral ==> v is Some,
        listed(fields, "layer_norm_epsilon"@) == Some(numeral) || (listed(
            fields,
            "layer_norm_epsilon"@,
        ) is None && listed(fields, "layer_norm_eps"@) == Some(numeral)),
    ensures
        exists|s: &str| s@ == numeral && #[trigger] call_ensures(
            parse,
            (s,),
            Some(config.layer_norm_eps),
        ),
{
    reveal_strlit("layer_norm_epsilon");
    reveal_strlit("layer_norm_eps");
    if listed(fields, "layer_norm_epsilon"@) is Some {
        lemma_numeral_is_read(fields, "layer_norm_epsilon"@, numeral);
    } else {
        lemma_nothing_is_read(fields, "layer_norm_epsilon"@);
        lemma_numeral_is_read(fields, "layer_norm_eps"@, numeral);
    }
}

/// Where the object lists the sizes that have no default there is no error, and
/// where one of them is not listed there is.
pub proof fn lemma_missing_fields(fields: Seq<Field>)
    requires
        all_wf(fields),
    ensures
        (lists_number(fields, "n_embd"@) || lists_number(fields, "hidden_size"@))
            && (lists_number(fields, "n_layer"@) || lists_number(fields, "num_hidden_layers"@))
            && (lists_number(fields, "n_head"@) || lists_number(fields, "num_attention_heads"@))
            && (lists_number(fields, "vocab_size"@))
            ==> gpt2_config_error(object_text(fields)) is None,
        listed(fields, "n_embd"@) is None && listed(fields, "hidden_size"@) is None
            ==> gpt2_config_error(object_text(fields)) is Some,
        listed(fields, "n_layer"@) is None && listed(fields, "num_hidden_layers"@) is None
            ==> gpt2_config_error(object_text(fields)) is Some,
        listed(fields, "n_head"@) is None && listed(fields, "num_attention_heads"@) is None
            ==> gpt2_config_error(object_text(fields)) is Some,
        listed(fields, "vocab_size"@) is None ==> gpt2_config_error(object_text(fields)) is Some,
{
    reveal_strlit("n_embd");
    reveal_strlit("hidden_size");
    reveal_strlit("n_layer");
    reveal_strlit("num_hidden_layers");
    reveal_strlit("n_head");
    reveal_strlit("num_attention_heads");
    reveal_strlit("vocab_size");
    if lists_number(fields, "n_embd"@) {
        let n = choose|n: usize| listed(fields, "n_embd"@)
            == Some(#[trigger] decimal_text(n as nat));
        lemma_number_is_read(fields, "n_embd"@, n);
    } else if listed(fields, "n_embd"@) is None {
        lemma_nothing_is_read(fields, "n_embd"@);
    }
    if lists_number(fields, "hidden_size"@) {
        let n = choose|n: usize| listed(fields, "hidden_size"@)
            == Some(#[trigger] decimal_text(n as nat));
        lemma_number_is_read(fields, "hidden_size"@, n);
    } else if listed(fields, "hidden_size"@) is None {
        lemma_nothing_is_read(fields, "hidden_size"@);
    }
    if lists_number(fields, "n_layer"@) {
        let n = choose|n: usize| listed(fields, "n_layer"@)
            == Some(#[trigger] decimal_text(n as nat));
        lemma_number_is_read(fields, "n_layer"@, n);
    } else if listed(fields, "n_layer"@) is None {
        lemma_nothing_is_read(fields, "n_layer"@);
    }
    if lists_number(fields, "num_hidden_layers"@) {
        let n = choose|n: usize| listed(fields, "num_hidden_layers"@)
            == Some(#[trigger] decimal_text(n as nat));
        lemma_number_is_read(fields, "num_hidden_layers"@, n);
    } else if listed(fields, "num_hidden_layers"@) is None {
        lemma_nothing_is_read(fields, "num_hidden_layers"@);
    }
    if lists_number(fields, "n_head"@) {
        let n = choose|n: usize| listed(fields, "n_head"@)
            == Some(#[trigger] decimal_text(n as nat));
        lemma_number_is_read(fields, "n_head"@, n);
    } else if listed(fields, "n_head"@) is None {
        lemma_nothing_is_read(fields, "n_head"@);
    }
    if lists_number(fields, "num_attention_heads"@) {
        let n = choose|n: usize| listed(fields, "num_attention_heads"@)
            == Some(#[trigger] decimal_text(n as nat));
        lemma_number_is_read(fields, "num_attention_heads"@, n);
    } else if listed(fields, "num_attention_heads"@) is None {
        lemma_nothing_is_read(fields, "num_attention_heads"@);
    }
    if lists_number(fields, "vocab_size"@) {
        let n = choose|n: usize| listed(fields, "vocab_size"@)
            == Some(#[trigger] decimal_text(n as nat));
        lemma_number_is_read(fields, "vocab_size"@, n);
    } else if listed(fields, "vocab_size"@) is None {
        lemma_nothing_is_read(fields, "vocab_size"@);
    }
}

} // verus!
