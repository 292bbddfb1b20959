//! From `config.json` to configuration: which field becomes which size.

use vstd::prelude::*;
use crate::config::meaning::{
    Field, all_wf, lemma_bool_is_read, lemma_nothing_is_read, lemma_number_is_read,
    lemma_numeral_is_read, listed, lists_number, object_text,
};
use crate::models::t5::{T5Config, is_t5_config, t5_config_error};
use crate::text::decimal_text;

verus! {

/// The configuration is the one that the object lists, field by field; a field that
/// is not listed has its default.
pub proof fn lemma_config_is_read<T, P: Fn(&str) -> Option<T>>(
    config: T5Config<T>,
    fields: Seq<Field>,
    parse: P,
    default_eps: T,
)
    requires
        all_wf(fields),
        is_t5_config(config, object_text(fields), parse, default_eps),
    ensures
        forall|n: usize|
            listed(fields, "d_model"@) == Some(#[trigger] decimal_text(n as nat))
                ==> config.d_model == n,
        forall|n: usize|
            listed(fields, "vocab_size"@) == Some(#[trigger] decimal_text(n as nat))
                ==> config.vocab_size == n,
        forall|n: usize|
            listed(fields, "d_ff"@) == Some(#[trigger] decimal_text(n as nat)) ==> config.d_ff == n,
        listed(fields, "d_ff"@) is None && 4 * config.d_model <= usize::MAX ==> config.d_ff
            == 4 * config.d_model,
        forall|n: usize|
            listed(fields, "d_kv"@) == Some(#[trigger] decimal_text(n as nat)) ==> config.d_kv == n,
        listed(fields, "d_kv"@) is None ==> config.d_kv == 64,
        forall|n: usize|
            listed(fields, "num_heads"@) == Some(#[trigger] decimal_text(n as nat))
                ==> config.num_heads == n,
        listed(fields, "num_heads"@) is None ==> config.num_heads == config.d_model / 64,
        forall|n: usize|
            listed(fields, "num_encoder_layers"@) == Some(#[trigger] decimal_text(n as nat))
                ==> config.num_encoder_layers == n,
        forall|n: usize|
            listed(fields, "num_encoder_layers"@) is None && listed(fields, "num_layers"@)
                == Some(#[trigger] decimal_text(n as nat)) ==> config.num_encoder_layers == n,
        listed(fields, "num_encoder_layers"@) is None && listed(fields, "num_layers"@) is None
            ==> config.num_encoder_layers == 6,
        forall|n: usize|
            listed(fields, "num_decoder_layers"@) == Some(#[trigger] decimal_text(n as nat))
                ==> config.num_decoder_layers == n,
        forall|n: usize|
            listed(fields, "num_decoder_layers"@) is None && listed(fields, "num_layers"@)
                == Some(#[trigger] decimal_text(n as nat)) ==> config.num_decoder_layers == n,
        listed(fields, "num_decoder_layers"@) is None && listed(fields, "num_layers"@) is None
            ==> config.num_decoder_layers == 6,
        forall|n: usize|
            listed(fields, "relative_attention_num_buckets"@)
                == Some(#[trigger] decimal_text(n as nat))
                ==> config.relative_attention_num_buckets == n,
        listed(fields, "relative_attention_num_buckets"@) is None
            ==> config.relative_attention_num_buckets == 32,
        forall|n: usize|
            listed(fields, "relative_attention_max_distance"@)
                == Some(#[trigger] decimal_text(n as nat))
                ==> config.relative_attention_max_distance == n,
        listed(fields, "relative_attention_max_distance"@) is None
            ==> config.relative_attention_max_distance == 128,
        listed(fields, "is_gated_act"@) == Some("true"@) ==> config.is_gated_act,
        listed(fields, "is_gated_act"@) == Some("false"@) ==> !config.is_gated_act,
        listed(fields, "is_gated_act"@) is None ==> !config.is_gated_act,
        listed(fields, "layer_norm_epsilon"@) is None && listed(fields, "layer_norm_eps"@) is None
            ==> config.layer_norm_eps == default_eps,
{
    reveal_strlit("d_model");
    reveal_strlit("vocab_size");
    reveal_strlit("d_ff");
    reveal_strlit("d_kv");
    reveal_strlit("num_heads");
    reveal_strlit("num_encoder_layers");
    reveal_strlit("num_layers");
    reveal_strlit("num_decoder_layers");
    reveal_strlit("relative_attention_num_buckets");
    reveal_strlit("relative_attention_max_distance");
    reveal_strlit("layer_norm_epsilon");
    reveal_strlit("layer_norm_eps");
    reveal_strlit("is_gated_act");
    reveal_strlit("true");
    reveal_strlit("false");
    assert forall|n: usize|
        listed(fields, "d_model"@) == Some(#[trigger] decimal_text(n as nat))
            implies config.d_model == n by {
        lemma_number_is_read(fields, "d_model"@, n);
    }
    assert forall|n: usize|
        listed(fields, "vocab_size"@) == Some(#[trigger] decimal_text(n as nat))
            implies config.vocab_size == n by {
        lemma_number_is_read(fields, "vocab_size"@, n);
    }
    assert forall|n: usize|
        listed(fields, "d_ff"@) == Some(#[trigger] decimal_text(n as nat)) implies config.d_ff
            == n by {
        lemma_number_is_read(fields, "d_ff"@, n);
    }
    if listed(fields, "d_ff"@) is None {
        lemma_nothing_is_read(fields, "d_ff"@);
    }
    assert forall|n: usize|
        listed(fields, "d_kv"@) == Some(#[trigger] decimal_text(n as nat)) implies config.d_kv
            == n by {
        lemma_number_is_read(fields, "d_kv"@, n);
    }
    if listed(fields, "d_kv"@) is None {
        lemma_nothing_is_read(fields, "d_kv"@);
    }
    assert forall|n: usize|
        listed(fields, "num_heads"@) == Some(#[trigger] decimal_text(n as nat))
            implies config.num_heads == n by {
        lemma_number_is_read(fields, "num_heads"@, n);
    }
    if listed(fields, "num_heads"@) is None {
        lemma_nothing_is_read(fields, "num_heads"@);
    }
    assert forall|n: usize|
        listed(fields, "num_encoder_layers"@) == Some(#[trigger] decimal_text(n as nat))
            implies config.num_encoder_layers == n by {
        lemma_number_is_read(fields, "num_encoder_layers"@, n);
    }
    assert forall|n: usize|
        listed(fields, "num_encoder_layers"@) is None && listed(fields, "num_layers"@)
            == Some(#[trigger] decimal_text(n as nat)) implies config.num_encoder_layers == n by {
        lemma_number_is_read(fields, "num_layers"@, n);
        lemma_nothing_is_read(fields, "num_encoder_layers"@);
    }
    if listed(fields, "num_encoder_layers"@) is None && listed(fields, "num_layers"@) is None {
        lemma_nothing_is_read(fields, "num_encoder_layers"@);
        lemma_nothing_is_read(fields, "num_layers"@);
    }
    assert forall|n: usize|
        listed(fields, "num_decoder_layers"@) == Some(#[trigger] decimal_text(n as nat))
            implies config.num_decoder_layers == n by {
        lemma_number_is_read(fields, "num_decoder_layers"@, n);
    }
    assert forall|n: usize|
        listed(fields, "num_decoder_layers"@) is None && listed(fields, "num_layers"@)
            == Some(#[trigger] decimal_text(n as nat)) implies config.num_decoder_layers == n by {
        lemma_number_is_read(fields, "num_layers"@, n);
        lemma_nothing_is_read(fields, "num_decoder_layers"@);
    }
    if listed(fields, "num_decoder_layers"@) is None && listed(fields, "num_layers"@) is None {
        lemma_nothing_is_read(fields, "num_decoder_layers"@);
        lemma_nothing_is_read(fields, "num_layers"@);
    }
    assert forall|n: usize|
        listed(fields, "relative_attention_num_buckets"@)
            == Some(#[trigger] decimal_text(n as nat))
            implies config.relative_attention_num_buckets == n by {
        lemma_number_is_read(fields, "relative_attention_num_buckets"@, n);
    }
    if listed(fields, "relative_attention_num_buckets"@) is None {
        lemma_nothing_is_read(fields, "relative_attention_num_buckets"@);
    }
    assert forall|n: usize|
        listed(fields, "relative_attention_max_distance"@)
            == Some(#[trigger] decimal_text(n as nat))
            implies config.relative_attention_max_distance == n by {
        lemma_number_is_read(fields, "relative_attention_max_distance"@, n);
    }
    if listed(fields, "relative_attention_max_distance"@) is None {
        lemma_nothing_is_read(fields, "relative_attention_max_distance"@);
    }
    if listed(fields, "is_gated_act"@) == Some("true"@) {
        lemma_bool_is_read(fields, "is_gated_act"@, true);
    } else if listed(fields, "is_gated_act"@) == Some("false"@) {
        lemma_bool_is_read(fields, "is_gated_act"@, false);
    } else if listed(fields, "is_gated_act"@) is None {
        lemma_nothing_is_read(fields, "is_gated_act"@);
    }
    if listed(fields, "layer_norm_epsilon"@) is None && listed(fields, "layer_norm_eps"@) is None {
        lemma_nothing_is_read(fields, "layer_norm_epsilon"@);
        lemma_nothing_is_read(fields, "layer_norm_eps"@);
    }
}

/// The epsilon is what `parse` makes of the numeral that the object lists as
/// `layer_norm_epsilon`, or else as `layer_norm_eps`, where it makes something of it.
pub proof fn lemma_epsilon_is_read<T, P: Fn(&str) -> Option<T>>(
    config: T5Config<T>,
    fields: Seq<Field>,
    parse: P,
    default_eps: T,
    numeral: Seq<char>,
)
    requires
        all_wf(fields),
        is_t5_config(config, object_text(fields), parse, default_eps),
        numeral.len() > 0,
        forall|i: int|
            0 <= i < numeral.len() ==> {
                let c = #[trigger] numeral[i];
                '0' <= c <= '9' || c == '.' || c == '+' || c == '-' || c == 'e' || c == 'E'
            },
        forall|s: &str, v: Option<T>| #[trigger]
            call_ensures(parse, (s,), v) && s@ == numeral ==> v is Some,
        listed(fields, "layer_norm_epsilon"@) == Some(numeral) || (listed(
            fields,
            "layer_norm_epsilon"@,
        ) is None && listed(fields, "layer_norm_eps"@) == Some(numeral)),
    ensures
        exists|s: &str| s@ == numeral && #[trigger] call_ensures(
            parse,
            (s,),
            Some(config.layer_norm_eps),
        ),
{
    reveal_strlit("layer_norm_epsilon");
    reveal_strlit("layer_norm_eps");
    if listed(fields, "layer_norm_epsilon"@) is Some {
        lemma_numeral_is_read(fields, "layer_norm_epsilon"@, numeral);
    } else {
        lemma_nothing_is_read(fields, "layer_norm_epsilon"@);
        lemma_numeral_is_read(fields, "layer_norm_eps"@, numeral);
    }
}

/// Where the object lists the sizes that have no default there is no error, and
/// where one of them is not listed there is.
pub proof fn lemma_missing_fields(fields: Seq<Field>)
    requires
        all_wf(fields),
    ensures
        (lists_number(fields, "d_model"@)) && (lists_number(fields, "vocab_size"@))
            ==> t5_config_error(object_text(fields)) is None,
        listed(fields, "d_model"@) is None ==> t5_config_error(object_text(fields)) is Some,
        listed(fields, "vocab_size"@) is None ==> t5_config_error(object_text(fields)) is Some,
{
    reveal_strlit("d_model");
    reveal_strlit("vocab_size");
    if lists_number(fields, "d_model"@) {
        let n = choose|n: usize| listed(fields, "d_model"@)
            == Some(#[trigger] decimal_text(n as nat));
        lemma_number_is_read(fields, "d_model"@, n);
    } else if listed(fields, "d_model"@) is None {
        lemma_nothing_is_read(fields, "d_model"@);
    }
    if lists_number(fields, "vocab_size"@) {
        let n = choose|n: usize| listed(fields, "vocab_size"@)
            == Some(#[trigger] decimal_text(n as nat));
        lemma_number_is_read(fields, "vocab_size"@, n);
    } else if listed(fields, "vocab_size"@) is None {
        lemma_nothing_is_read(fields, "vocab_size"@);
    }
}

} // verus!
