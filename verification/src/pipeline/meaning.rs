//! What a pipeline amounts to.

use vstd::prelude::*;
use vstd::utf8::{is_ascii_chars, is_ascii_chars_encode_utf8};
use core::ops::{Add, Mul};
use crate::config::field_rest;
use crate::config::meaning::{
    Field, all_wf, is_key, is_key_char, lemma_nothing_is_read, lemma_word_is_read, listed,
    object_text,
};
use crate::config::quoted;
use crate::header::EntryView;
use crate::models::generate::lemma_generation;
use crate::models::gpt2::Gpt2Model;
use crate::models::gpt2::forward::DecoderKernels;
use crate::models::bert::forward::{EncoderKernels, sentence_embedding_gives};
use crate::models::t5::T5Model;
use crate::models::t5::forward::{T5Kernels, encode_gives};
use crate::pipeline::run::{
    answer_gives, continuation_gives, decoded_text, embed_gives, prompt_ids,
};
use crate::pipeline::{
    Family, Pipeline, family_named, is_bpe, load_error_of, wants_lowercase, written_model_type,
};
use crate::table::{last_index, lemma_last_index_below};
use crate::tensor::Tensor;
use crate::text::{
    index_of_char, index_of_text, lemma_index_of_char, lemma_index_of_text, lemma_utf8_concat,
    text_stands_at,
};
use crate::tokenizer::bpe::meaning::lemma_decoding_appends;
use crate::tokenizer::bpe::{
    BpeTokenizer, decoded_bytes, keys_of, lemma_framed_ids, lossy_text,
};
use crate::tokenizer::meaning::{is_line, lemma_id_is_line};
use crate::tokenizer::{lemma_sentence_frame, vocab_error};

verus! {

/// The model type is the word that the object lists as `model_type`.
pub proof fn lemma_model_type_is_read(fields: Seq<Field>, word: Seq<char>)
    requires
        all_wf(fields),
        is_key(word),
    ensures
        listed(fields, "model_type"@) == Some(quoted(word)) ==> written_model_type(
            object_text(fields),
        ) == Some(word),
        listed(fields, "model_type"@) is None ==> written_model_type(object_text(fields)) is None,
{
    reveal_strlit("model_type");
    let key = "model_type"@;
    if listed(fields, key) == Some(quoted(word)) {
        lemma_word_is_read(fields, key, word);
        let rest = field_rest(object_text(fields), key)->0;
        let n = word.len() as int;
        let start = rest.take(n + 2);
        assert(start[0] == '"');
        let inner = rest.skip(1);
        assert forall|i: int| 0 <= i < n implies inner[i] == word[i] by {
            assert(start[i + 1] == quoted(word)[i + 1]);
        }
        assert(inner[n] == '"') by {
            assert(start[n + 1] == quoted(word)[n + 1]);
        }
        assert forall|i: int| 0 <= i < n implies inner[i] != '"' by {
            assert(is_key_char(word[i]));
        }
        lemma_index_of_char(inner, '"', 0);
        assert(index_of_char(inner, '"', 0) == Some(n));
        assert(inner.take(n) =~= word);
    } else if listed(fields, key) is None {
        lemma_nothing_is_read(fields, key);
    }
}

/// The model types of each family, and no others.
pub proof fn lemma_families(model_type: Seq<char>)
    ensures
        family_named(model_type) == Some(Family::Bert) <==> seq![
            "bert"@,
            "roberta"@,
            "distilbert"@,
            "electra"@,
            "albert"@,
        ].contains(model_type),
        family_named(model_type) == Some(Family::Gpt2) <==> seq![
            "gpt2"@,
            "gpt_neo"@,
            "gpt_neox"@,
            "gptj"@,
        ].contains(model_type),
        family_named(model_type) == Some(Family::T5) <==> seq![
            "t5"@,
            "mt5"@,
            "longt5"@,
            "umt5"@,
        ].contains(model_type),
{
    reveal_strlit("bert");
    reveal_strlit("roberta");
    reveal_strlit("distilbert");
    reveal_strlit("electra");
    reveal_strlit("albert");
    reveal_strlit("gpt2");
    reveal_strlit("gpt_neo");
    reveal_strlit("gpt_neox");
    reveal_strlit("gptj");
    reveal_strlit("t5");
    reveal_strlit("mt5");
    reveal_strlit("longt5");
    reveal_strlit("umt5");
    let b = seq!["bert"@, "roberta"@, "distilbert"@, "electra"@, "albert"@];
    let g = seq!["gpt2"@, "gpt_neo"@, "gpt_neox"@, "gptj"@];
    let t = seq!["t5"@, "mt5"@, "longt5"@, "umt5"@];
    assert(b[0] == "bert"@ && b[1] == "roberta"@ && b[2] == "distilbert"@ && b[3] == "electra"@
        && b[4] == "albert"@);
    assert(g[0] == "gpt2"@ && g[1] == "gpt_neo"@ && g[2] == "gpt_neox"@ && g[3] == "gptj"@);
    assert(t[0] == "t5"@ && t[1] == "mt5"@ && t[2] == "longt5"@ && t[3] == "umt5"@);
    assert(forall|x: Seq<char>, y: Seq<char>| x == y ==> #[trigger] x.len() == #[trigger] y.len());
    if b.contains(model_type) {
        let k = choose|k: int| 0 <= k < b.len() && b[k] == model_type;
    }
    if g.contains(model_type) {
        let k = choose|k: int| 0 <= k < g.len() && g[k] == model_type;
        assert(model_type[0] == 'g');
        assert("bert"@[0] == 'b' && "roberta"@[0] == 'r' && "distilbert"@[0] == 'd'
            && "electra"@[0] == 'e' && "albert"@[0] == 'a');
    }
    if t.contains(model_type) {
        let k = choose|k: int| 0 <= k < t.len() && t[k] == model_type;
        assert(model_type.last() == '5');
        assert("bert"@.last() == 't' && "roberta"@.last() == 'a' && "distilbert"@.last() == 't'
            && "electra"@.last() == 'a' && "albert"@.last() == 't');
        assert("gpt2"@.last() == '2' && "gpt_neo"@.last() == 'o' && "gpt_neox"@.last() == 'x'
            && "gptj"@.last() == 'j');
    }
}

/// Where nothing is said of the case, texts are put in lower case.
pub proof fn lemma_lowercase_by_default(json: Seq<char>)
    requires
        index_of_text(json, "\"uncased\""@, 0) is None,
        index_of_text(json, "\"do_lower_case\""@, 0) is None,
    ensures
        wants_lowercase(json),
{
}

/// Where the first `do_lower_case` is true, texts are put in lower case, unless
/// something is said to be uncased.
pub proof fn lemma_lowercase_on_demand(a: Seq<char>, b: Seq<char>)
    requires
        ({
            let json = a + "\"do_lower_case\": true"@ + b;
            &&& index_of_text(json, "\"uncased\""@, 0) is None
            &&& forall|j: int|
                0 <= j < a.len() ==> !text_stands_at(json, "\"do_lower_case\""@, j)
        }),
    ensures
        wants_lowercase(a + "\"do_lower_case\": true"@ + b),
{
    let (key, field) = ("\"do_lower_case\""@, "\"do_lower_case\": true"@);
    let json = a + field + b;
    let p = a.len() as int;
    reveal_strlit("\"do_lower_case\"");
    reveal_strlit("\"do_lower_case\": true");
    reveal_strlit("true");
    assert(json.subrange(p, p + key.len()) =~= key);
    assert(text_stands_at(json, key, p));
    lemma_index_of_text(json, key, 0);
    assert(json.subrange(p + 17, p + 21) =~= "true"@);
    assert(text_stands_at(json, "true"@, p + 17));
    lemma_index_of_text(json, "true"@, p);
    let q = index_of_text(json, "true"@, p)->0;
    let between = json.subrange(p, q);
    assert forall|i: int| 0 <= i < between.len() implies '\0' <= #[trigger] between[i]
        <= '\u{7f}' by {
        assert(between[i] == field[i]);
    }
    assert(is_ascii_chars(between));
    is_ascii_chars_encode_utf8(between);
}

/// Where the first `do_lower_case` is false and anything behind it is true, texts
/// keep their case.
pub proof fn lemma_case_is_kept(a: Seq<char>, b: Seq<char>, k: int)
    requires
        text_stands_at(b, "true"@, k),
        forall|j: int|
            0 <= j < a.len() ==> !text_stands_at(
                a + "\"do_lower_case\": false"@ + b,
                "\"do_lower_case\""@,
                j,
            ),
    ensures
        !wants_lowercase(a + "\"do_lower_case\": false"@ + b),
{
    let (key, field) = ("\"do_lower_case\""@, "\"do_lower_case\": false"@);
    let json = a + field + b;
    let p = a.len() as int;
    reveal_strlit("\"do_lower_case\"");
    reveal_strlit("\"do_lower_case\": false");
    reveal_strlit("true");
    assert(json.subrange(p, p + key.len()) =~= key);
    assert(text_stands_at(json, key, p));
    lemma_index_of_text(json, key, 0);
    assert(json.subrange(p + 22 + k, p + 22 + k + 4) =~= b.subrange(k, k + 4));
    assert(text_stands_at(json, "true"@, p + 22 + k));
    lemma_index_of_text(json, "true"@, p);
    let q = index_of_text(json, "true"@, p)->0;
    assert(q >= p + 22) by {
        if q < p + 22 {
            assert(json.subrange(q, q + 4)[0] == 't');
            assert(json[q] == field[q - p]);
        }
    }
    let between = json.subrange(p, q);
    let rest = json.subrange(p + 22, q);
    assert(between =~= field + rest);
    lemma_utf8_concat(field, rest);
    assert(is_ascii_chars(field));
    is_ascii_chars_encode_utf8(field);
}

/// What is generated follows the prompt: its bytes behind those of the prompt's
/// tokens are those of the whole sequence. No new tokens give no text.
pub proof fn lemma_continuation_follows_prompt<
    T: Copy + Default + From<i8> + From<i16> + PartialOrd + Add<Output = T> + Mul<Output = T>,
    N: Fn(&[T], &[T], &[T], T) -> Vec<T>,
    S: Fn(&[T]) -> Vec<T>,
    G: Fn(T) -> T,
    F: Fn(usize) -> T,
>(
    text: Seq<char>,
    model: Gpt2Model<T>,
    tokenizer: BpeTokenizer,
    ids: Seq<u32>,
    max_new_tokens: nat,
    kernels: DecoderKernels<N, S, G, F>,
)
    requires
        continuation_gives(text, model, tokenizer, ids, max_new_tokens, kernels),
    ensures
        exists|all: Seq<u32>, bytes: Seq<u8>|
            #![trigger crate::models::gpt2::forward::greedy_gives(all, model, ids, max_new_tokens, kernels), lossy_text(bytes)]
            crate::models::gpt2::forward::greedy_gives(all, model, ids, max_new_tokens, kernels)
                && decoded_bytes(tokenizer.items(), all) == decoded_bytes(tokenizer.items(), ids)
                + bytes && text == lossy_text(bytes),
        max_new_tokens == 0 ==> text == lossy_text(Seq::empty()),
{
    let all = choose|all: Seq<u32>| #[trigger]
        crate::models::gpt2::forward::greedy_gives(all, model, ids, max_new_tokens, kernels) && text
            == decoded_text(tokenizer, all.skip(ids.len() as int));
    lemma_generation(
        |ids: Seq<u32>, token: u32| model.may_pick(ids, &kernels, token),
        Some(model.config.max_position_embeddings),
        model.eos_token_id,
        ids,
        max_new_tokens,
        all,
    );
    let new = all.skip(ids.len() as int);
    assert(all =~= ids + new) by {
        assert(all.take(ids.len() as int) == ids);
    }
    lemma_decoding_appends(tokenizer.items(), ids, new);
    let bytes = decoded_bytes(tokenizer.items(), new);
    assert(text == lossy_text(bytes));
    if max_new_tokens == 0 {
        assert(new =~= Seq::<u32>::empty());
        assert(bytes =~= Seq::<u8>::empty());
    }
}

/// An answer has no text of its own where no tokens are generated.
pub proof fn lemma_answer_of_no_tokens<
    T: Copy + Default + From<i8> + From<i16> + PartialOrd + Add<Output = T> + Mul<Output = T>,
    N2: Fn(&[T], &[T], T) -> Vec<T>,
    S2: Fn(&[T]) -> Vec<T>,
    F2: Fn(usize) -> T,
    G2: Fn(T) -> T,
    R2: Fn(T) -> T,
    D2: Fn(usize, usize, usize, usize) -> usize,
>(
    text: Seq<char>,
    model: T5Model<T>,
    tokenizer: BpeTokenizer,
    ids: Seq<u32>,
    kernels: T5Kernels<N2, S2, F2, G2, R2, D2>,
)
    requires
        answer_gives(text, model, tokenizer, ids, 0, kernels),
    ensures
        text == lossy_text(Seq::empty()),
{
    let (encoder_out, out) = choose|encoder_out: Tensor<T>, out: Seq<u32>|
        #![trigger encode_gives(encoder_out, model, ids, kernels), decoded_text(tokenizer, out)]
        encode_gives(encoder_out, model, ids, kernels) && crate::models::t5::forward::greedy_gives(
            out,
            model,
            encoder_out,
            0,
            kernels,
        ) && text == decoded_text(tokenizer, out);
    crate::models::t5::meaning::lemma_generation_ends(out, model, encoder_out, 0, kernels);
    assert(out =~= Seq::<u32>::empty());
    assert(decoded_bytes(tokenizer.items(), out) =~= Seq::<u8>::empty());
}

/// The ids of a prompt are those of its text with the end token behind, cut so that
/// the end token still fits.
pub proof fn lemma_prompt_ends(tokenizer: BpeTokenizer, prompt: Seq<char>, max_len: int, end: u32)
    requires
        max_len > 0,
        tokenizer.eos_token_id == Some(end),
    ensures
        prompt_ids(tokenizer, prompt, max_len).len() <= max_len,
        prompt_ids(tokenizer, prompt, max_len).last() == end,
        prompt_ids(tokenizer, prompt, max_len).drop_last().is_prefix_of(
            tokenizer.text_ids(prompt),
        ),
        tokenizer.text_ids(prompt).len() < max_len ==> prompt_ids(tokenizer, prompt, max_len)
            == tokenizer.text_ids(prompt).push(end),
{
    lemma_framed_ids(tokenizer.text_ids(prompt), tokenizer.eos_token_id, max_len);
}

/// A text is embedded as the tokens between `[CLS]` and `[SEP]` that the vocabulary
/// has for it.
pub proof fn lemma_embedded_sentence<
    T: Default + From<i8> + From<i16> + PartialOrd + Add<Output = T> + Mul<Output = T>,
    N: Fn(&[T], &[T], &[T], T) -> Vec<T>,
    S: Fn(&[T]) -> Vec<T>,
    G: Fn(T) -> T,
    A: Fn(usize) -> T,
    R: Fn(usize) -> T,
>(
    out: Tensor<T>,
    pipeline: Pipeline<T>,
    text: Seq<char>,
    max_len: int,
    kernels: EncoderKernels<N, S, G, A>,
    reciprocal: R,
    start: u32,
    end: u32,
)
    requires
        pipeline.inner is Bert,
        vocab_error(pipeline.inner->Bert_tokenizer.vocab()) is None,
        is_line(pipeline.inner->Bert_tokenizer.vocab(), "[CLS]"@, start),
        is_line(pipeline.inner->Bert_tokenizer.vocab(), "[SEP]"@, end),
        max_len >= 2,
        embed_gives(out, pipeline, text, max_len, kernels, reciprocal),
    ensures
        exists|ids: Seq<u32>|
            2 <= ids.len() <= max_len && ids[0] == start && ids.last() == end && #[trigger]
            sentence_embedding_gives(
                out,
                pipeline.inner->Bert_model,
                ids,
                kernels,
                reciprocal,
            ),
{
    let tokenizer = pipeline.inner->Bert_tokenizer;
    let ids = crate::models::bert::forward::text_ids(tokenizer, text, max_len);
    lemma_id_is_line(tokenizer.vocab(), "[CLS]"@, start);
    lemma_id_is_line(tokenizer.vocab(), "[SEP]"@, end);
    lemma_sentence_frame(
        tokenizer.vocab(),
        tokenizer.options().max_input_chars_per_word as int,
        crate::tokenizer::basic::basic_words(text, tokenizer.options().lowercase),
        max_len,
    );
    assert(sentence_embedding_gives(out, pipeline.inner->Bert_model, ids, kernels, reciprocal));
}

/// The end token of a byte-level tokenizer is the one that its vocabulary lists as
/// `<|endoftext|>`, the start token is the same, and the padding token is the one
/// that it lists as `<|padding|>`.
pub proof fn lemma_special_tokens(
    tokenizer: BpeTokenizer,
    vocab_bytes: Seq<u8>,
    merges_bytes: Seq<u8>,
    k: int,
)
    requires
        is_bpe(tokenizer, vocab_bytes, merges_bytes),
        keys_of(tokenizer.items()).no_duplicates(),
        0 <= k < tokenizer.items().len(),
    ensures
        tokenizer.items()[k].0 == "<|endoftext|>"@ ==> tokenizer.eos_token_id == Some(
            tokenizer.items()[k].1,
        ) && tokenizer.bos_token_id == Some(tokenizer.items()[k].1),
        tokenizer.items()[k].0 == "<|padding|>"@ ==> tokenizer.pad_token_id == Some(
            tokenizer.items()[k].1,
        ),
{
    let items = tokenizer.items();
    let keys = keys_of(items);
    assert(keys[k] == items[k].0);
    lemma_last_index_below(keys, items[k].0, keys.len() as int);
    if let Some(j) = last_index(keys, items[k].0) {
        assert(keys[j] == keys[k]);
    }
}

/// Unknown model types are refused, and so are decoders without merge rules,
/// whatever else the files hold.
pub proof fn lemma_refused_models(
    family: Option<Family>,
    entries: Seq<EntryView>,
    tokenizer_bytes: Seq<u8>,
    json: Seq<char>,
    merges_bytes: Option<Seq<u8>>,
)
    ensures
        family is None ==> load_error_of(family, entries, tokenizer_bytes, json, merges_bytes)
            is Some,
        family == Some(Family::Gpt2) && merges_bytes is None ==> load_error_of(
            family,
            entries,
            tokenizer_bytes,
            json,
            merges_bytes,
        ) is Some,
        family == Some(Family::T5) && merges_bytes is None ==> load_error_of(
            family,
            entries,
            tokenizer_bytes,
            json,
            merges_bytes,
        ) is Some,
        family == Some(Family::Bert) ==> load_error_of(
            family,
            entries,
            tokenizer_bytes,
            json,
            merges_bytes,
        ) == load_error_of(family, entries, tokenizer_bytes, json, None),
{
}

} // verus!
