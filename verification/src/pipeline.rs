//! High-level pipeline API — one call to load any supported model.
//!
//! [`Pipeline`] wraps a model and its tokenizer under a single unified interface.
//! The model type is auto-detected from `config.json` via the `"model_type"` field.
//!
//! ## Supported model types
//!
//! | `model_type` | Tokenizer | Methods |
//! |---|---|---|
//! | `bert`, `roberta`, `distilbert`, `electra` | `vocab.txt` (WordPiece) | `embed`, `embed_batch` |
//! | `gpt2`, `gpt_neo`, `gpt_neox` | `vocab.json` + `merges.txt` combined | `generate` |
//! | `t5`, `mt5`, `longt5` | `vocab.json` + `merges.txt` combined | `encode_t5`, `generate` |

pub mod meaning;
pub mod run;

use vstd::prelude::*;
use vstd::slice::slice_subrange;
use vstd::utf8::encode_utf8;
use crate::config::{bool_field, field_rest, or_default, rest_of_field, usize_field, usize_field_or};
use crate::error::{Error, Result};
use crate::header::EntryView;
use crate::loader::{ModelFile, file_entries};
use crate::models::plan::LoadStep;
use crate::text::{
    chars_of, find_char, find_text, index_of_char, index_of_text, lemma_index_of_char,
    lemma_index_of_text, same_text, string_of,
};
use crate::tokenizer::{WordPieceOptions, WordPieceTokenizer, vocab_of_bytes};
use crate::tokenizer::bpe::{BpeTokenizer, vocab_id};
use crate::tokenizer::vocabfile::{merges_txt_rules, vocab_json_items};
use crate::models::bert::{BertConfig, BertModel, bert_config_error, is_bert_config, name_prefix};
use crate::models::gpt2::{
    Gpt2Config, Gpt2Model, check_gpt2_default, gpt2_config_error, gpt2_default_fits, is_gpt2_config,
};
use crate::models::t5::{
    T5Config, T5Model, check_t5_default, is_t5_config, plan_step, t5_config_error, t5_default_fits,
};

verus! {

/// What `str::to_lowercase` makes of a text.
pub uninterp spec fn lowercase_text(s: Seq<char>) -> Seq<char>;

/// Calls `str::to_lowercase`; the result depends on the text alone.
#[verifier::external_body]
fn lowercase_string(s: &str) -> (res: String)
    ensures
        res@ == lowercase_text(s@),
{
    s.to_lowercase()
}

/// The text of the `"model_type"` field, as it is written.
pub open spec fn written_model_type(json: Seq<char>) -> Option<Seq<char>> {
    match field_rest(json, "model_type"@) {
        None => None,
        Some(rest) => if rest.len() == 0 || rest[0] != '"' {
            None
        } else {
            let inner = rest.skip(1);
            match index_of_char(inner, '"', 0) {
                Some(end) => Some(inner.take(end)),
                None => Some(inner),
            }
        },
    }
}

/// The `"model_type"` field in lower case; empty if there is none.
pub open spec fn model_type_of(json: Seq<char>) -> Seq<char> {
    match written_model_type(json) {
        Some(text) => lowercase_text(text),
        None => Seq::empty(),
    }
}

/// The text of the `"model_type"` field, as it is written.
pub fn read_model_type(config_json: &str) -> (res: Option<String>)
    ensures
        match res {
            Some(text) => written_model_type(config_json@) == Some(text@),
            None => written_model_type(config_json@) is None,
        },
{
    let json = chars_of(config_json);
    let rest = match rest_of_field(json.as_slice(), "model_type") {
        Some(rest) => rest,
        None => {
            return None;
        },
    };
    if rest.len() == 0 || rest[0] != '"' {
        return None;
    }
    let n: usize = rest.len();
    let inner = slice_subrange(rest.as_slice(), 1, n);
    proof {
        assert(inner@ =~= rest@.skip(1));
        lemma_index_of_char(inner@, '"', 0);
    }
    match find_char(inner, '"', 0) {
        Some(end) => {
            let text = slice_subrange(inner, 0, end);
            assert(text@ =~= inner@.take(end as int));
            Some(string_of(text))
        },
        None => Some(string_of(inner)),
    }
}

/// Extracts the `"model_type"` field from a config.json string.
/// Returns an empty string if not found.
pub fn detect_model_type(config_json: &str) -> (res: String)
    ensures
        res@ == model_type_of(config_json@),
{
    match read_model_type(config_json) {
        Some(text) => lowercase_string(text.as_str()),
        None => String::new(),
    }
}

/// Model families with an architecture and a tokenizer of their own.
#[derive(Clone, Copy, Debug, PartialEq, Eq, Structural)]
pub enum Family {
    Bert,
    Gpt2,
    T5,
}

/// The family that a model type belongs to.
pub open spec fn family_named(model_type: Seq<char>) -> Option<Family> {
    if model_type == "bert"@ || model_type == "roberta"@ || model_type == "distilbert"@
        || model_type == "electra"@ || model_type == "albert"@ {
        Some(Family::Bert)
    } else if model_type == "gpt2"@ || model_type == "gpt_neo"@ || model_type == "gpt_neox"@
        || model_type == "gptj"@ {
        Some(Family::Gpt2)
    } else if model_type == "t5"@ || model_type == "mt5"@ || model_type == "longt5"@ || model_type
        == "umt5"@ {
        Some(Family::T5)
    } else {
        None
    }
}

/// The family that a model type belongs to.
pub fn family_of(model_type: &str) -> (res: Option<Family>)
    ensures
        res == family_named(model_type@),
{
    if same_text(model_type, "bert") || same_text(model_type, "roberta") || same_text(
        model_type,
        "distilbert",
    ) || same_text(model_type, "electra") || same_text(model_type, "albert") {
        Some(Family::Bert)
    } else if same_text(model_type, "gpt2") || same_text(model_type, "gpt_neo") || same_text(
        model_type,
        "gpt_neox",
    ) || same_text(model_type, "gptj") {
        Some(Family::Gpt2)
    } else if same_text(model_type, "t5") || same_text(model_type, "mt5") || same_text(
        model_type,
        "longt5",
    ) || same_text(model_type, "umt5") {
        Some(Family::T5)
    } else {
        None
    }
}

/// Whether a BERT tokenizer lowercases: not where the configuration says
/// `"uncased"`, nor where the next `true` is twenty bytes or more behind
/// `"do_lower_case"`.
pub open spec fn wants_lowercase(json: Seq<char>) -> bool {
    index_of_text(json, "\"uncased\""@, 0) is None && match index_of_text(
        json,
        "\"do_lower_case\""@,
        0,
    ) {
        None => true,
        Some(p) => match index_of_text(json, "true"@, p) {
            None => true,
            Some(q) => encode_utf8(json.subrange(p, q)).len() < 20,
        },
    }
}

/// Whether a BERT tokenizer lowercases.
pub fn read_lowercase(config_json: &str) -> (res: bool)
    ensures
        res == wants_lowercase(config_json@),
{
    let json = chars_of(config_json);
    let text = json.as_slice();
    proof {
        lemma_index_of_text(json@, "\"do_lower_case\""@, 0);
    }
    if find_text(text, chars_of("\"uncased\"").as_slice(), 0).is_some() {
        return false;
    }
    match find_text(text, chars_of("\"do_lower_case\"").as_slice(), 0) {
        None => true,
        Some(p) => {
            proof {
                lemma_index_of_text(json@, "true"@, p as int);
            }
            match find_text(text, chars_of("true").as_slice(), p) {
                None => true,
                Some(q) => {
                    let between = string_of(slice_subrange(text, p, q));
                    between.as_str().as_bytes().len() < 20
                },
            }
        },
    }
}

/// A model and its tokenizer.
#[allow(inconsistent_fields)]
pub enum Inner<T> {
    Bert { model: BertModel<T>, tokenizer: WordPieceTokenizer },
    Gpt2 { model: Gpt2Model<T>, tokenizer: BpeTokenizer },
    T5 { model: T5Model<T>, tokenizer: BpeTokenizer },
}

/// A ready-to-use model+tokenizer pair, auto-configured from `config.json`.
pub struct Pipeline<T> {
    pub inner: Inner<T>,
}

/// The epsilons of configurations that give none.
#[derive(Clone, Copy)]
pub struct DefaultEps<T> {
    pub bert: T,
    pub gpt2: T,
    pub t5: T,
}

// ---------------------------------------------------------------------------
// What loading gives
// ---------------------------------------------------------------------------

/// Why a byte-level tokenizer cannot be built, if it cannot.
pub open spec fn bpe_error(vocab_bytes: Seq<u8>, merges_bytes: Seq<u8>) -> Option<Error> {
    match vocab_json_items(vocab_bytes) {
        Err(e) => Some(e),
        Ok(_) => match merges_txt_rules(merges_bytes) {
            Err(e) => Some(e),
            Ok(_) => None,
        },
    }
}

/// The tokenizer is the one that the two files describe.
pub open spec fn is_bpe(
    tokenizer: BpeTokenizer,
    vocab_bytes: Seq<u8>,
    merges_bytes: Seq<u8>,
) -> bool {
    &&& vocab_json_items(vocab_bytes) == Ok::<Seq<(Seq<char>, u32)>, Error>(tokenizer.items())
    &&& merges_txt_rules(merges_bytes) == Ok::<Seq<(Seq<char>, Seq<char>)>, Error>(
        tokenizer.rules(),
    )
    &&& tokenizer.eos_token_id == vocab_id(tokenizer.items(), "<|endoftext|>"@)
    &&& tokenizer.bos_token_id == vocab_id(tokenizer.items(), "<|endoftext|>"@)
    &&& tokenizer.pad_token_id == vocab_id(tokenizer.items(), "<|padding|>"@)
}

/// Loading the weights of the model that a configuration describes.
pub open spec fn weights_step(family: Family, entries: Seq<EntryView>, json: Seq<char>) -> LoadStep {
    match family {
        Family::Bert => crate::models::bert::model_step(
            entries,
            name_prefix(crate::models::bert::detected_prefix(entries)),
            or_default(usize_field(json, "num_hidden_layers"@), 0) as nat,
        ),
        Family::Gpt2 => crate::models::gpt2::model_step(
            entries,
            or_default(usize_field_or(json, "n_layer"@, "num_hidden_layers"@), 0) as nat,
        ),
        Family::T5 => {
            let num_layers = or_default(usize_field(json, "num_layers"@), 6);
            plan_step(
                entries,
                or_default(usize_field(json, "num_encoder_layers"@), num_layers) as nat,
                or_default(usize_field(json, "num_decoder_layers"@), num_layers) as nat,
                or_default(bool_field(json, "is_gated_act"@), false),
            )
        },
    }
}

/// Why a configuration describes no model of the family, if it does not.
pub open spec fn config_error(family: Family, json: Seq<char>) -> Option<Error> {
    match family {
        Family::Bert => bert_config_error(json),
        Family::Gpt2 => gpt2_config_error(json),
        Family::T5 => t5_config_error(json),
    }
}

/// Why no pipeline comes out of a file with these entries, if none does: an
/// unsupported model type, missing merges, the configuration, the weights, and
/// the tokenizer, in this order.
pub open spec fn load_error_of(
    family: Option<Family>,
    entries: Seq<EntryView>,
    tokenizer_bytes: Seq<u8>,
    json: Seq<char>,
    merges_bytes: Option<Seq<u8>>,
) -> Option<Error> {
    match family {
        None => Some(
            Error::InvalidInput(
                "unsupported model_type in config.json (supported: bert/roberta/distilbert/gpt2/t5)",
            ),
        ),
        Some(f) => if f == Family::Gpt2 && merges_bytes is None {
            Some(Error::InvalidInput("GPT-2 models require merges_bytes (merges.txt)"))
        } else if f == Family::T5 && merges_bytes is None {
            Some(Error::InvalidInput("T5 models require merges_bytes (merges.txt)"))
        } else if config_error(f, json) is Some {
            config_error(f, json)
        } else if weights_step(f, entries, json).error is Some {
            weights_step(f, entries, json).error
        } else if f == Family::Bert {
            match vocab_of_bytes(tokenizer_bytes) {
                Err(e) => Some(e),
                Ok(_) => None,
            }
        } else {
            bpe_error(tokenizer_bytes, merges_bytes.unwrap())
        },
    }
}

/// Loading does not come to a configuration whose default sizes exceed
/// `usize::MAX`, nor to a tensor whose shape cannot be used.
pub open spec fn load_fits(
    family: Option<Family>,
    entries: Seq<EntryView>,
    json: Seq<char>,
    merges_bytes: Option<Seq<u8>>,
) -> bool {
    family matches Some(f) ==> (f == Family::Bert || merges_bytes is Some ==> {
        &&& f == Family::Gpt2 ==> gpt2_default_fits(json)
        &&& f == Family::T5 ==> t5_default_fits(json)
        &&& config_error(f, json) is None ==> weights_step(f, entries, json).fits
    })
}

/// The pipeline is the one that the files describe.
pub open spec fn is_pipeline<T, F: Fn(u32) -> T, P: Fn(&str) -> Option<T>>(
    pipeline: Pipeline<T>,
    family: Family,
    entries: Seq<EntryView>,
    model_bytes: Seq<u8>,
    tokenizer_bytes: Seq<u8>,
    json: Seq<char>,
    merges_bytes: Option<Seq<u8>>,
    decode: F,
    parse: P,
    eps: DefaultEps<T>,
) -> bool {
    match pipeline.inner {
        Inner::Bert { model, tokenizer } => {
            &&& family == Family::Bert
            &&& is_bert_config(model.config, json, parse, eps.bert)
            &&& crate::models::bert::is_model_loaded(
                model,
                entries,
                model_bytes,
                name_prefix(crate::models::bert::detected_prefix(entries)),
                decode,
            )
            &&& vocab_of_bytes(tokenizer_bytes) == Ok::<Seq<Seq<char>>, Error>(tokenizer.vocab())
            &&& tokenizer.options() == (WordPieceOptions {
                lowercase: wants_lowercase(json),
                max_input_chars_per_word: 100,
            })
        },
        Inner::Gpt2 { model, tokenizer } => {
            &&& family == Family::Gpt2
            &&& is_gpt2_config(model.config, json, parse, eps.gpt2)
            &&& crate::models::gpt2::is_model_loaded(model, entries, model_bytes, decode)
            &&& merges_bytes matches Some(merges) && is_bpe(tokenizer, tokenizer_bytes, merges)
        },
        Inner::T5 { model, tokenizer } => {
            &&& family == Family::T5
            &&& is_t5_config(model.config, json, parse, eps.t5)
            &&& crate::models::t5::is_model_loaded(model, entries, model_bytes, decode)
            &&& merges_bytes matches Some(merges) && is_bpe(tokenizer, tokenizer_bytes, merges)
        },
    }
}

/// The bytes of an optional slice.
pub open spec fn optional_bytes(bytes: Option<&[u8]>) -> Option<Seq<u8>> {
    match bytes {
        Some(b) => Some(b@),
        None => None,
    }
}

impl<T: Copy> Pipeline<T> {
    /// Creates a pipeline from raw bytes.
    ///
    /// # Arguments
    ///
    /// - `model_bytes` — contents of a `model.safetensors` file.
    /// - `tokenizer_bytes` — `vocab.txt` for BERT-family models;
    ///   `vocab.json` for GPT-2 / T5 models.
    /// - `config_json` — contents of `config.json` (determines model type).
    /// - `merges_bytes` — `merges.txt` for GPT-2 / T5 models; `None` for BERT.
    /// - `decode` — turns the bit pattern of an element into the element.
    /// - `parse` — turns a numeral into an epsilon.
    /// - `eps` — the epsilons of configurations that give none.
    pub fn from_bytes<F: Fn(u32) -> T, P: Fn(&str) -> Option<T>>(
        model_bytes: &[u8],
        tokenizer_bytes: &[u8],
        config_json: &str,
        merges_bytes: Option<&[u8]>,
        decode: &F,
        parse: &P,
        eps: DefaultEps<T>,
    ) -> (res: Result<Self>)
        requires
            forall|word: u32| call_requires(*decode, (word,)),
            forall|s: &str| #[trigger] call_requires(*parse, (s,)),
            file_entries(model_bytes@) matches Ok(entries) ==> load_fits(
                family_named(model_type_of(config_json@)),
                entries,
                config_json@,
                optional_bytes(merges_bytes),
            ),
        ensures
            match file_entries(model_bytes@) {
                Err(e) => res == Err::<Self, Error>(e),
                Ok(entries) => match load_error_of(
                    family_named(model_type_of(config_json@)),
                    entries,
                    tokenizer_bytes@,
                    config_json@,
                    optional_bytes(merges_bytes),
                ) {
                    Some(e) => res == Err::<Self, Error>(e),
                    None => res matches Ok(pipeline) && is_pipeline(
                        pipeline,
                        family_named(model_type_of(config_json@)).unwrap(),
                        entries,
                        model_bytes@,
                        tokenizer_bytes@,
                        config_json@,
                        optional_bytes(merges_bytes),
                        *decode,
                        *parse,
                        eps,
                    ),
                },
            },
    {
        let model_type = detect_model_type(config_json);
        Self::from_family_bytes(
            family_of(model_type.as_str()),
            model_bytes,
            tokenizer_bytes,
            config_json,
            merges_bytes,
            decode,
            parse,
            eps,
        )
    }

    /// Like [`Pipeline::from_bytes`], for a model of a known family.
    pub fn from_family_bytes<F: Fn(u32) -> T, P: Fn(&str) -> Option<T>>(
        family: Option<Family>,
        model_bytes: &[u8],
        tokenizer_bytes: &[u8],
        config_json: &str,
        merges_bytes: Option<&[u8]>,
        decode: &F,
        parse: &P,
        eps: DefaultEps<T>,
    ) -> (res: Result<Self>)
        requires
            forall|word: u32| call_requires(*decode, (word,)),
            forall|s: &str| #[trigger] call_requires(*parse, (s,)),
            file_entries(model_bytes@) matches Ok(entries) ==> load_fits(
                family,
                entries,
                config_json@,
                optional_bytes(merges_bytes),
            ),
        ensures
            match file_entries(model_bytes@) {
                Err(e) => res == Err::<Self, Error>(e),
                Ok(entries) => match load_error_of(
                    family,
                    entries,
                    tokenizer_bytes@,
                    config_json@,
                    optional_bytes(merges_bytes),
                ) {
                    Some(e) => res == Err::<Self, Error>(e),
                    None => res matches Ok(pipeline) && is_pipeline(
                        pipeline,
                        family.unwrap(),
                        entries,
                        model_bytes@,
                        tokenizer_bytes@,
                        config_json@,
                        optional_bytes(merges_bytes),
                        *decode,
                        *parse,
                        eps,
                    ),
                },
            },
    {
        let file = match ModelFile::parse(model_bytes) {
            Ok(file) => file,
            Err(e) => {
                return Err(e);
            },
        };
        let ghost entries = file.entries();
        let inner = match family {
            Some(Family::Bert) => {
                let config = match BertConfig::from_config_json(config_json, parse, eps.bert) {
                    Ok(config) => config,
                    Err(e) => {
                        return Err(e);
                    },
                };
                let model = match BertModel::from_safetensors_auto(&file, config, decode) {
                    Ok(model) => model,
                    Err(e) => {
                        return Err(e);
                    },
                };
                let options = WordPieceOptions {
                    lowercase: read_lowercase(config_json),
                    max_input_chars_per_word: 100,
                };
                let tokenizer = match WordPieceTokenizer::from_vocab_bytes_with_options(
                    tokenizer_bytes,
                    options,
                ) {
                    Ok(tokenizer) => tokenizer,
                    Err(e) => {
                        return Err(e);
                    },
                };
                Inner::Bert { model, tokenizer }
            },
            Some(Family::Gpt2) => {
                let merges = match merges_bytes {
                    Some(merges) => merges,
                    None => {
                        return Err(
                            Error::InvalidInput("GPT-2 models require merges_bytes (merges.txt)"),
                        );
                    },
                };
                let config = match Gpt2Config::from_config_json(config_json, parse, eps.gpt2) {
                    Ok(config) => config,
                    Err(e) => {
                        return Err(e);
                    },
                };
                let model = match Gpt2Model::from_safetensors(&file, config, decode) {
                    Ok(model) => model,
                    Err(e) => {
                        return Err(e);
                    },
                };
                let tokenizer = match BpeTokenizer::from_bytes(tokenizer_bytes, merges) {
                    Ok(tokenizer) => tokenizer,
                    Err(e) => {
                        return Err(e);
                    },
                };
                Inner::Gpt2 { model, tokenizer }
            },
            Some(Family::T5) => {
                let merges = match merges_bytes {
                    Some(merges) => merges,
                    None => {
                        return Err(
                            Error::InvalidInput("T5 models require merges_bytes (merges.txt)"),
                        );
                    },
                };
                let config = match T5Config::from_config_json(config_json, parse, eps.t5) {
                    Ok(config) => config,
                    Err(e) => {
                        return Err(e);
                    },
                };
                let model = match T5Model::from_safetensors(&file, config, decode) {
                    Ok(model) => model,
                    Err(e) => {
                        return Err(e);
                    },
                };
                let tokenizer = match BpeTokenizer::from_bytes(tokenizer_bytes, merges) {
                    Ok(tokenizer) => tokenizer,
                    Err(e) => {
                        return Err(e);
                    },
                };
                Inner::T5 { model, tokenizer }
            },
            None => {
                return Err(
                    Error::InvalidInput(
                        "unsupported model_type in config.json (supported: bert/roberta/distilbert/gpt2/t5)",
                    ),
                );
            },
        };
        Ok(Pipeline { inner })
    }

    /// Whether loading comes to no configuration or tensor that cannot be used.
    pub fn can_load<P: Fn(&str) -> Option<T>>(
        family: Option<Family>,
        model_bytes: &[u8],
        config_json: &str,
        merges_bytes: Option<&[u8]>,
        parse: &P,
        eps: DefaultEps<T>,
    ) -> (res: bool)
        requires
            forall|s: &str| #[trigger] call_requires(*parse, (s,)),
        ensures
            res == (file_entries(model_bytes@) matches Ok(entries) ==> load_fits(
                family,
                entries,
                config_json@,
                optional_bytes(merges_bytes),
            )),
    {
        let file = match ModelFile::parse(model_bytes) {
            Ok(file) => file,
            Err(_) => {
                return true;
            },
        };
        match family {
            None => true,
            Some(Family::Bert) => {
                match BertConfig::from_config_json(config_json, parse, eps.bert) {
                    Ok(config) => {
                        BertModel::can_load(&file, &config, BertModel::<T>::find_prefix(&file))
                    },
                    Err(_) => true,
                }
            },
            Some(Family::Gpt2) => {
                if merges_bytes.is_none() {
                    return true;
                }
                if !check_gpt2_default(config_json) {
                    return false;
                }
                match Gpt2Config::from_config_json(config_json, parse, eps.gpt2) {
                    Ok(config) => Gpt2Model::can_load(&file, &config),
                    Err(_) => true,
                }
            },
            Some(Family::T5) => {
                if merges_bytes.is_none() {
                    return true;
                }
                if !check_t5_default(config_json) {
                    return false;
                }
                match T5Config::from_config_json(config_json, parse, eps.t5) {
                    Ok(config) => T5Model::can_load(&file, &config),
                    Err(_) => true,
                }
            },
        }
    }

    /// Like [`Pipeline::from_bytes`], for any files: `None` where loading comes
    /// to a configuration or a tensor that cannot be used.
    pub fn try_from_bytes<F: Fn(u32) -> T, P: Fn(&str) -> Option<T>>(
        model_bytes: &[u8],
        tokenizer_bytes: &[u8],
        config_json: &str,
        merges_bytes: Option<&[u8]>,
        decode: &F,
        parse: &P,
        eps: DefaultEps<T>,
    ) -> (res: Result<Option<Self>>)
        requires
            forall|word: u32| call_requires(*decode, (word,)),
            forall|s: &str| #[trigger] call_requires(*parse, (s,)),
        ensures
            match file_entries(model_bytes@) {
                Err(e) => res == Err::<Option<Self>, Error>(e),
                Ok(entries) => {
                    let family = family_named(model_type_of(config_json@));
                    let merges = optional_bytes(merges_bytes);
                    if !load_fits(family, entries, config_json@, merges) {
                        res == Ok::<Option<Self>, Error>(None)
                    } else {
                        match load_error_of(
                            family,
                            entries,
                            tokenizer_bytes@,
                            config_json@,
                            merges,
                        ) {
                            Some(e) => res == Err::<Option<Self>, Error>(e),
                            None => res matches Ok(Some(pipeline)) && is_pipeline(
                                pipeline,
                                family.unwrap(),
                                entries,
                                model_bytes@,
                                tokenizer_bytes@,
                                config_json@,
                                merges,
                                *decode,
                                *parse,
                                eps,
                            ),
                        }
                    }
                },
            },
    {
        let model_type = detect_model_type(config_json);
        let family = family_of(model_type.as_str());
        if !Self::can_load(family, model_bytes, config_json, merges_bytes, parse, eps) {
            return Ok(None);
        }
        match Self::from_bytes(
            model_bytes,
            tokenizer_bytes,
            config_json,
            merges_bytes,
            decode,
            parse,
            eps,
        ) {
            Ok(pipeline) => Ok(Some(pipeline)),
            Err(e) => Err(e),
        }
    }

    /// Returns the `model_type` string detected from `config.json`.
    pub fn detected_model_type(config_json: &str) -> (res: String)
        ensures
            res@ == model_type_of(config_json@),
    {
        detect_model_type(config_json)
    }
}

} // verus!
