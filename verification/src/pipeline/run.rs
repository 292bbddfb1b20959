//! Running a pipeline.

use vstd::prelude::*;
use vstd::slice::slice_subrange;
use core::ops::{Add, Mul};
use crate::error::{Error, Result};
use crate::models::bert::forward::{
    EncoderKernels, elements_fit, kernels_fit, model_fits, sentence_embedding_gives, sentence_fits,
    text_ids,
};
use crate::models::forward::{is_matrix, is_vector};
use crate::models::generate::lemma_generation;
use crate::models::gpt2::Gpt2Model;
use crate::models::gpt2::forward::DecoderKernels;
use crate::models::t5::T5Model;
use crate::models::t5::forward::{T5Kernels, encode_gives, encoder_accepts};
use crate::num::{can_add, can_multiply, can_order};
use crate::pipeline::{Inner, Pipeline};
use crate::tensor::Tensor;
use crate::tokenizer::bpe::{BpeTokenizer, decoded_bytes, framed_ids, lossy_text};

verus! {

/// The ids of a prompt, cut to `max_len` with the end token.
pub open spec fn prompt_ids(tokenizer: BpeTokenizer, prompt: Seq<char>, max_len: int) -> Seq<u32> {
    framed_ids(tokenizer.text_ids(prompt), tokenizer.eos_token_id, max_len)
}

/// The text that ids decode to.
pub open spec fn decoded_text(tokenizer: BpeTokenizer, ids: Seq<u32>) -> Seq<char> {
    lossy_text(decoded_bytes(tokenizer.items(), ids))
}

// ---------------------------------------------------------------------------
// BERT family
// ---------------------------------------------------------------------------

/// The model of the pipeline, if it is a BERT encoder, can run on the text.
pub open spec fn embed_fits<T>(pipeline: Pipeline<T>, text: Seq<char>, max_len: int) -> bool {
    pipeline.inner matches Inner::Bert { model, tokenizer } ==> model_fits(model) && (max_len >= 2
        ==> sentence_fits(model, text_ids(tokenizer, text, max_len)))
}

/// The embedding of a text may be `out`.
pub open spec fn embed_gives<
    T: Default + From<i8> + From<i16> + PartialOrd + Add<Output = T> + Mul<Output = T>,
    N: Fn(&[T], &[T], &[T], T) -> Vec<T>,
    S: Fn(&[T]) -> Vec<T>,
    G: Fn(T) -> T,
    A: Fn(usize) -> T,
    R: Fn(usize) -> T,
>(
    out: Tensor<T>,
    pipeline: Pipeline<T>,
    text: Seq<char>,
    max_len: int,
    kernels: EncoderKernels<N, S, G, A>,
    reciprocal: R,
) -> bool {
    pipeline.inner matches Inner::Bert { model, tokenizer } && is_vector(
        out,
        model.embeddings.word.dims()[1],
    ) && sentence_embedding_gives(
        out,
        model,
        text_ids(tokenizer, text, max_len),
        kernels,
        reciprocal,
    )
}

/// Why no text is embedded, if none is.
pub open spec fn embed_error<T>(pipeline: Pipeline<T>, max_len: int) -> Option<Error> {
    if !(pipeline.inner is Bert) {
        Some(Error::InvalidInput("embed() is only supported for BERT-family models"))
    } else if max_len < 2 {
        Some(Error::InvalidTokenizer("max_len must be at least 2"))
    } else {
        None
    }
}

impl<
    T: Copy + Default + From<i8> + From<i16> + PartialOrd + Add<Output = T> + Mul<Output = T>,
> Pipeline<T> {
    /// Tokenizes `text` and returns a single pooled embedding `[hidden_size]`.
    ///
    /// Only valid for BERT-family models. Returns an error for GPT-2 / T5.
    pub fn embed<
        N: Fn(&[T], &[T], &[T], T) -> Vec<T>,
        S: Fn(&[T]) -> Vec<T>,
        G: Fn(T) -> T,
        A: Fn(usize) -> T,
        R: Fn(usize) -> T,
    >(
        &self,
        text: &str,
        max_len: usize,
        kernels: &EncoderKernels<N, S, G, A>,
        reciprocal: &R,
    ) -> (res: Result<Tensor<T>>)
        requires
            embed_fits(*self, text@, max_len as int),
            elements_fit::<T>(),
            kernels_fit(*kernels),
            forall|n: usize| n > 0 ==> #[trigger] call_requires(*reciprocal, (n,)),
        ensures
            match embed_error(*self, max_len as int) {
                Some(e) => res == Err::<Tensor<T>, Error>(e),
                None => res matches Ok(out) && embed_gives(
                    out,
                    *self,
                    text@,
                    max_len as int,
                    *kernels,
                    *reciprocal,
                ),
            },
    {
        match &self.inner {
            Inner::Bert { model, tokenizer } => model.embed_text(
                tokenizer,
                text,
                max_len,
                kernels,
                reciprocal,
            ),
            _ => Err(Error::InvalidInput("embed() is only supported for BERT-family models")),
        }
    }

    /// Whether the model of the pipeline, if it is a BERT encoder, can run on
    /// the text.
    pub fn can_embed(&self, text: &str, max_len: usize) -> (res: bool)
        ensures
            res == embed_fits(*self, text@, max_len as int),
    {
        match &self.inner {
            Inner::Bert { model, tokenizer } => {
                if !model.is_consistent() {
                    return false;
                }
                match tokenizer.encode(text, max_len) {
                    Ok(encoded) => model.accepts(encoded.input_ids.as_slice(), None),
                    Err(_) => true,
                }
            },
            _ => true,
        }
    }

    /// Like [`Pipeline::embed`], for any text: `None` where the model cannot run
    /// on it.
    pub fn try_embed<
        N: Fn(&[T], &[T], &[T], T) -> Vec<T>,
        S: Fn(&[T]) -> Vec<T>,
        G: Fn(T) -> T,
        A: Fn(usize) -> T,
        R: Fn(usize) -> T,
    >(
        &self,
        text: &str,
        max_len: usize,
        kernels: &EncoderKernels<N, S, G, A>,
        reciprocal: &R,
    ) -> (res: Result<Option<Tensor<T>>>)
        requires
            elements_fit::<T>(),
            kernels_fit(*kernels),
            forall|n: usize| n > 0 ==> #[trigger] call_requires(*reciprocal, (n,)),
        ensures
            if !embed_fits(*self, text@, max_len as int) {
                res == Ok::<Option<Tensor<T>>, Error>(None)
            } else {
                match embed_error(*self, max_len as int) {
                    Some(e) => res == Err::<Option<Tensor<T>>, Error>(e),
                    None => res matches Ok(Some(out)) && embed_gives(
                        out,
                        *self,
                        text@,
                        max_len as int,
                        *kernels,
                        *reciprocal,
                    ),
                }
            },
    {
        if !self.can_embed(text, max_len) {
            return Ok(None);
        }
        match self.embed(text, max_len, kernels, reciprocal) {
            Ok(out) => Ok(Some(out)),
            Err(e) => Err(e),
        }
    }

    /// Embeds a batch of texts, returning one vector per text.
    ///
    /// Each text is encoded independently (no shared padding). Only valid for
    /// BERT-family models.
    pub fn embed_batch<
        N: Fn(&[T], &[T], &[T], T) -> Vec<T>,
        S: Fn(&[T]) -> Vec<T>,
        G: Fn(T) -> T,
        A: Fn(usize) -> T,
        R: Fn(usize) -> T,
    >(
        &self,
        texts: &[&str],
        max_len: usize,
        kernels: &EncoderKernels<N, S, G, A>,
        reciprocal: &R,
    ) -> (res: Result<Vec<Tensor<T>>>)
        requires
            forall|i: int|
                0 <= i < texts@.len() ==> embed_fits(
                    *self,
                    (#[trigger] texts@[i])@,
                    max_len as int,
                ),
            elements_fit::<T>(),
            kernels_fit(*kernels),
            forall|n: usize| n > 0 ==> #[trigger] call_requires(*reciprocal, (n,)),
        ensures
            if !(self.inner is Bert) {
                res == Err::<Vec<Tensor<T>>, Error>(
                    Error::InvalidInput(
                        "embed_batch() is only supported for BERT-family models",
                    ),
                )
            } else if max_len < 2 && texts@.len() > 0 {
                res == Err::<Vec<Tensor<T>>, Error>(
                    Error::InvalidTokenizer("max_len must be at least 2"),
                )
            } else {
                res matches Ok(out) && out@.len() == texts@.len() && forall|i: int|
                    0 <= i < out@.len() ==> embed_gives(
                        #[trigger] out@[i],
                        *self,
                        texts@[i]@,
                        max_len as int,
                        *kernels,
                        *reciprocal,
                    )
            },
    {
        match &self.inner {
            Inner::Bert { .. } => {},
            _ => {
                return Err(
                    Error::InvalidInput(
                        "embed_batch() is only supported for BERT-family models",
                    ),
                );
            },
        }
        let n: usize = texts.len();
        let mut out: Vec<Tensor<T>> = Vec::new();
        let mut i: usize = 0;
        while i < n
            invariant
                i <= n,
                n == texts@.len(),
                self.inner is Bert,
                forall|k: int|
                    0 <= k < texts@.len() ==> embed_fits(
                        *self,
                        (#[trigger] texts@[k])@,
                        max_len as int,
                    ),
                elements_fit::<T>(),
                kernels_fit(*kernels),
                forall|n: usize| n > 0 ==> #[trigger] call_requires(*reciprocal, (n,)),
                i > 0 ==> max_len >= 2,
                out@.len() == i,
                forall|k: int|
                    0 <= k < i ==> embed_gives(
                        #[trigger] out@[k],
                        *self,
                        texts@[k]@,
                        max_len as int,
                        *kernels,
                        *reciprocal,
                    ),
            decreases n - i,
        {
            assert(embed_fits(*self, texts@[i as int]@, max_len as int));
            match self.embed(texts[i], max_len, kernels, reciprocal) {
                Ok(embedding) => {
                    out.push(embedding);
                },
                Err(e) => {
                    return Err(e);
                },
            }
            i = i + 1;
        }
        Ok(out)
    }

    /// Like [`Pipeline::embed_batch`], for any texts: `None` where the model
    /// cannot run on one of them.
    pub fn try_embed_batch<
        N: Fn(&[T], &[T], &[T], T) -> Vec<T>,
        S: Fn(&[T]) -> Vec<T>,
        G: Fn(T) -> T,
        A: Fn(usize) -> T,
        R: Fn(usize) -> T,
    >(
        &self,
        texts: &[&str],
        max_len: usize,
        kernels: &EncoderKernels<N, S, G, A>,
        reciprocal: &R,
    ) -> (res: Result<Option<Vec<Tensor<T>>>>)
        requires
            elements_fit::<T>(),
            kernels_fit(*kernels),
            forall|n: usize| n > 0 ==> #[trigger] call_requires(*reciprocal, (n,)),
        ensures
            if exists|i: int|
                0 <= i < texts@.len() && !embed_fits(
                    *self,
                    (#[trigger] texts@[i])@,
                    max_len as int,
                ) {
                res == Ok::<Option<Vec<Tensor<T>>>, Error>(None)
            } else if !(self.inner is Bert) {
                res == Err::<Option<Vec<Tensor<T>>>, Error>(
                    Error::InvalidInput(
                        "embed_batch() is only supported for BERT-family models",
                    ),
                )
            } else if max_len < 2 && texts@.len() > 0 {
                res == Err::<Option<Vec<Tensor<T>>>, Error>(
                    Error::InvalidTokenizer("max_len must be at least 2"),
                )
            } else {
                res matches Ok(Some(out)) && out@.len() == texts@.len() && forall|i: int|
                    0 <= i < out@.len() ==> embed_gives(
                        #[trigger] out@[i],
                        *self,
                        texts@[i]@,
                        max_len as int,
                        *kernels,
                        *reciprocal,
                    )
            },
    {
        let n: usize = texts.len();
        let mut i: usize = 0;
        while i < n
            invariant
                i <= n,
                n == texts@.len(),
                forall|k: int|
                    0 <= k < i ==> embed_fits(*self, (#[trigger] texts@[k])@, max_len as int),
            decreases n - i,
        {
            if !self.can_embed(texts[i], max_len) {
                assert(!embed_fits(*self, texts@[i as int]@, max_len as int));
                return Ok(None);
            }
            i = i + 1;
        }
        match self.embed_batch(texts, max_len, kernels, reciprocal) {
            Ok(out) => Ok(Some(out)),
            Err(e) => Err(e),
        }
    }
}

// ---------------------------------------------------------------------------
// GPT-2 and T5 families
// ---------------------------------------------------------------------------

/// The model of the pipeline can generate from the prompt.
pub open spec fn generate_allowed<
    T: Copy + Default + From<i8> + From<i16> + PartialOrd + Add<Output = T> + Mul<Output = T>,
    N: Fn(&[T], &[T], &[T], T) -> Vec<T>,
    S: Fn(&[T]) -> Vec<T>,
    G: Fn(T) -> T,
    F: Fn(usize) -> T,
    N2: Fn(&[T], &[T], T) -> Vec<T>,
    S2: Fn(&[T]) -> Vec<T>,
    F2: Fn(usize) -> T,
    G2: Fn(T) -> T,
    R2: Fn(T) -> T,
    D2: Fn(usize, usize, usize, usize) -> usize,
>(
    pipeline: Pipeline<T>,
    prompt: Seq<char>,
    max_new_tokens: nat,
    kernels: DecoderKernels<N, S, G, F>,
    t5_kernels: T5Kernels<N2, S2, F2, G2, R2, D2>,
) -> bool {
    match pipeline.inner {
        Inner::Bert { .. } => true,
        Inner::Gpt2 { model, tokenizer } => {
            let limit = model.config.max_position_embeddings;
            &&& crate::models::gpt2::forward::model_fits(model)
            &&& limit > 0 ==> crate::models::gpt2::forward::generation_fits(
                model,
                prompt_ids(tokenizer, prompt, limit as int),
                max_new_tokens,
                kernels,
            )
        },
        Inner::T5 { model, tokenizer } => {
            &&& crate::models::t5::forward::model_fits(model)
            &&& crate::models::t5::forward::generation_fits(
                model,
                prompt_ids(tokenizer, prompt, 512),
                max_new_tokens,
                t5_kernels,
            )
        },
    }
}

/// A GPT-2 model may continue the prompt with `text`: what comes behind the
/// prompt's tokens, decoded.
pub open spec fn continuation_gives<
    T: Copy + Default + From<i8> + From<i16> + PartialOrd + Add<Output = T> + Mul<Output = T>,
    N: Fn(&[T], &[T], &[T], T) -> Vec<T>,
    S: Fn(&[T]) -> Vec<T>,
    G: Fn(T) -> T,
    F: Fn(usize) -> T,
>(
    text: Seq<char>,
    model: Gpt2Model<T>,
    tokenizer: BpeTokenizer,
    ids: Seq<u32>,
    max_new_tokens: nat,
    kernels: DecoderKernels<N, S, G, F>,
) -> bool {
    exists|all: Seq<u32>|
        #[trigger] crate::models::gpt2::forward::greedy_gives(
            all,
            model,
            ids,
            max_new_tokens,
            kernels,
        ) && text == decoded_text(tokenizer, all.skip(ids.len() as int))
}

/// A T5 model may answer the encoded ids with `text`: what comes behind the
/// start token, decoded.
pub open spec fn answer_gives<
    T: Copy + Default + From<i8> + From<i16> + PartialOrd + Add<Output = T> + Mul<Output = T>,
    N2: Fn(&[T], &[T], T) -> Vec<T>,
    S2: Fn(&[T]) -> Vec<T>,
    F2: Fn(usize) -> T,
    G2: Fn(T) -> T,
    R2: Fn(T) -> T,
    D2: Fn(usize, usize, usize, usize) -> usize,
>(
    text: Seq<char>,
    model: T5Model<T>,
    tokenizer: BpeTokenizer,
    ids: Seq<u32>,
    max_new_tokens: nat,
    kernels: T5Kernels<N2, S2, F2, G2, R2, D2>,
) -> bool {
    exists|encoder_out: Tensor<T>, out: Seq<u32>|
        #![trigger encode_gives(encoder_out, model, ids, kernels), decoded_text(tokenizer, out)]
        encode_gives(encoder_out, model, ids, kernels) && crate::models::t5::forward::greedy_gives(
            out,
            model,
            encoder_out,
            max_new_tokens,
            kernels,
        ) && text == decoded_text(tokenizer, out)
}

/// What generating from a prompt may give.
pub open spec fn generate_gives<
    T: Copy + Default + From<i8> + From<i16> + PartialOrd + Add<Output = T> + Mul<Output = T>,
    N: Fn(&[T], &[T], &[T], T) -> Vec<T>,
    S: Fn(&[T]) -> Vec<T>,
    G: Fn(T) -> T,
    F: Fn(usize) -> T,
    N2: Fn(&[T], &[T], T) -> Vec<T>,
    S2: Fn(&[T]) -> Vec<T>,
    F2: Fn(usize) -> T,
    G2: Fn(T) -> T,
    R2: Fn(T) -> T,
    D2: Fn(usize, usize, usize, usize) -> usize,
>(
    res: Result<String>,
    pipeline: Pipeline<T>,
    prompt: Seq<char>,
    max_new_tokens: nat,
    kernels: DecoderKernels<N, S, G, F>,
    t5_kernels: T5Kernels<N2, S2, F2, G2, R2, D2>,
) -> bool {
    match pipeline.inner {
        Inner::Bert { .. } => res == Err::<String, Error>(
            Error::InvalidInput("generate() is not supported for BERT-family models"),
        ),
        Inner::Gpt2 { model, tokenizer } => {
            let limit = model.config.max_position_embeddings;
            if limit == 0 {
                res == Err::<String, Error>(Error::InvalidTokenizer("max_len must be > 0"))
            } else {
                res matches Ok(text) && continuation_gives(
                    text@,
                    model,
                    tokenizer,
                    prompt_ids(tokenizer, prompt, limit as int),
                    max_new_tokens,
                    kernels,
                )
            }
        },
        Inner::T5 { model, tokenizer } => res matches Ok(text) && answer_gives(
            text@,
            model,
            tokenizer,
            prompt_ids(tokenizer, prompt, 512),
            max_new_tokens,
            t5_kernels,
        ),
    }
}

/// The encoder of the pipeline, if it is a T5 model, can run on the text.
pub open spec fn encode_allowed<T, D: Fn(usize, usize, usize, usize) -> usize>(
    pipeline: Pipeline<T>,
    text: Seq<char>,
    max_len: int,
    step: D,
) -> bool {
    pipeline.inner matches Inner::T5 { model, tokenizer }
        ==> crate::models::t5::forward::model_fits(model) && (max_len > 0 ==> encoder_accepts(
        model,
        prompt_ids(tokenizer, text, max_len),
        step,
    ))
}

/// What encoding a text may give.
pub open spec fn encode_t5_gives<
    T: Default + From<i8> + From<i16> + PartialOrd + Add<Output = T> + Mul<Output = T>,
    N2: Fn(&[T], &[T], T) -> Vec<T>,
    S2: Fn(&[T]) -> Vec<T>,
    F2: Fn(usize) -> T,
    G2: Fn(T) -> T,
    R2: Fn(T) -> T,
    D2: Fn(usize, usize, usize, usize) -> usize,
>(
    res: Result<Tensor<T>>,
    pipeline: Pipeline<T>,
    text: Seq<char>,
    max_len: int,
    kernels: T5Kernels<N2, S2, F2, G2, R2, D2>,
) -> bool {
    match pipeline.inner {
        Inner::T5 { model, tokenizer } => if max_len == 0 {
            res == Err::<Tensor<T>, Error>(Error::InvalidTokenizer("max_len must be > 0"))
        } else {
            let ids = prompt_ids(tokenizer, text, max_len);
            res matches Ok(out) && is_matrix(
                out,
                ids.len() as usize,
                model.shared_emb.dims()[1],
            ) && encode_gives(out, model, ids, kernels)
        },
        _ => res == Err::<Tensor<T>, Error>(
            Error::InvalidInput("encode_t5() is only valid for T5-family models"),
        ),
    }
}

impl<
    T: Copy + Default + From<i8> + From<i16> + PartialOrd + Add<Output = T> + Mul<Output = T>,
> Pipeline<T> {
    /// Generates text greedily. `max_new_tokens` controls how many tokens to produce.
    ///
    /// For GPT-2: continues the prompt.
    /// For T5: treats `prompt` as the encoder input (task prefix included).
    ///
    /// Returns the generated string, not including the prompt.
    pub fn generate<
        N: Fn(&[T], &[T], &[T], T) -> Vec<T>,
        S: Fn(&[T]) -> Vec<T>,
        G: Fn(T) -> T,
        F: Fn(usize) -> T,
        N2: Fn(&[T], &[T], T) -> Vec<T>,
        S2: Fn(&[T]) -> Vec<T>,
        F2: Fn(usize) -> T,
        G2: Fn(T) -> T,
        R2: Fn(T) -> T,
        D2: Fn(usize, usize, usize, usize) -> usize,
    >(
        &self,
        prompt: &str,
        max_new_tokens: usize,
        kernels: &DecoderKernels<N, S, G, F>,
        t5_kernels: &T5Kernels<N2, S2, F2, G2, R2, D2>,
    ) -> (res: Result<String>)
        requires
            generate_allowed(*self, prompt@, max_new_tokens as nat, *kernels, *t5_kernels),
            can_add::<T>(),
            can_multiply::<T>(),
            can_order::<T>(),
            crate::models::gpt2::forward::kernels_fit(*kernels),
            crate::models::t5::forward::kernels_fit(*t5_kernels),
        ensures
            generate_gives(
                res,
                *self,
                prompt@,
                max_new_tokens as nat,
                *kernels,
                *t5_kernels,
            ),
    {
        self.try_generate(prompt, max_new_tokens, kernels, t5_kernels).unwrap()
    }

    /// Like [`Pipeline::generate`], for any prompt: `None` where the model cannot
    /// generate from it.
    pub fn try_generate<
        N: Fn(&[T], &[T], &[T], T) -> Vec<T>,
        S: Fn(&[T]) -> Vec<T>,
        G: Fn(T) -> T,
        F: Fn(usize) -> T,
        N2: Fn(&[T], &[T], T) -> Vec<T>,
        S2: Fn(&[T]) -> Vec<T>,
        F2: Fn(usize) -> T,
        G2: Fn(T) -> T,
        R2: Fn(T) -> T,
        D2: Fn(usize, usize, usize, usize) -> usize,
    >(
        &self,
        prompt: &str,
        max_new_tokens: usize,
        kernels: &DecoderKernels<N, S, G, F>,
        t5_kernels: &T5Kernels<N2, S2, F2, G2, R2, D2>,
    ) -> (res: Option<Result<String>>)
        requires
            can_add::<T>(),
            can_multiply::<T>(),
            can_order::<T>(),
            crate::models::gpt2::forward::kernels_fit(*kernels),
            crate::models::t5::forward::kernels_fit(*t5_kernels),
        ensures
            match res {
                Some(outcome) => generate_gives(
                    outcome,
                    *self,
                    prompt@,
                    max_new_tokens as nat,
                    *kernels,
                    *t5_kernels,
                ),
                None => !generate_allowed(
                    *self,
                    prompt@,
                    max_new_tokens as nat,
                    *kernels,
                    *t5_kernels,
                ),
            },
    {
        match &self.inner {
            Inner::Gpt2 { model, tokenizer } => {
                if !model.is_consistent() {
                    return None;
                }
                let enc = match tokenizer.encode(prompt, model.config.max_position_embeddings) {
                    Ok(enc) => enc,
                    Err(e) => {
                        return Some(Err(e));
                    },
                };
                let ids = enc.input_ids.as_slice();
                let all = match model.try_generate_greedy(ids, max_new_tokens, kernels) {
                    Some(all) => all,
                    None => {
                        return None;
                    },
                };
                let ghost next = |s: Seq<u32>, token: u32| model.may_pick(s, kernels, token);
                proof {
                    lemma_generation(
                        next,
                        Some(model.config.max_position_embeddings),
                        model.eos_token_id,
                        ids@,
                        max_new_tokens as nat,
                        all@,
                    );
                }
                let n: usize = ids.len();
                let m: usize = all.len();
                let new_ids = slice_subrange(all.as_slice(), n, m);
                assert(new_ids@ =~= all@.skip(n as int));
                Some(Ok(tokenizer.decode(new_ids)))
            },
            Inner::T5 { model, tokenizer } => {
                if !model.is_consistent() {
                    return None;
                }
                let enc = match tokenizer.encode(prompt, 512) {
                    Ok(enc) => enc,
                    Err(e) => {
                        return Some(Err(e));
                    },
                };
                let ids = enc.input_ids.as_slice();
                let out_ids = match model.try_generate_greedy(ids, max_new_tokens, t5_kernels) {
                    Some(out_ids) => out_ids,
                    None => {
                        return None;
                    },
                };
                let text = tokenizer.decode(out_ids.as_slice());
                assert(text@ == decoded_text(*tokenizer, out_ids@));
                Some(Ok(text))
            },
            Inner::Bert { .. } => Some(
                Err(Error::InvalidInput("generate() is not supported for BERT-family models")),
            ),
        }
    }

    /// Runs only the T5 encoder, returning hidden states `[seq_len, d_model]`.
    ///
    /// Useful for embedding sentences with T5 without decoder overhead.
    /// Returns an error for non-T5 models.
    pub fn encode_t5<
        N2: Fn(&[T], &[T], T) -> Vec<T>,
        S2: Fn(&[T]) -> Vec<T>,
        F2: Fn(usize) -> T,
        G2: Fn(T) -> T,
        R2: Fn(T) -> T,
        D2: Fn(usize, usize, usize, usize) -> usize,
    >(&self, text: &str, max_len: usize, kernels: &T5Kernels<N2, S2, F2, G2, R2, D2>) -> (res: Result<Tensor<T>>)
        requires
            encode_allowed(*self, text@, max_len as int, kernels.step),
            can_add::<T>(),
            can_multiply::<T>(),
            crate::models::t5::forward::kernels_fit(*kernels),
        ensures
            encode_t5_gives(res, *self, text@, max_len as int, *kernels),
    {
        self.try_encode_t5(text, max_len, kernels).unwrap()
    }

    /// Like [`Pipeline::encode_t5`], for any text: `None` where the encoder
    /// cannot run on it.
    pub fn try_encode_t5<
        N2: Fn(&[T], &[T], T) -> Vec<T>,
        S2: Fn(&[T]) -> Vec<T>,
        F2: Fn(usize) -> T,
        G2: Fn(T) -> T,
        R2: Fn(T) -> T,
        D2: Fn(usize, usize, usize, usize) -> usize,
    >(&self, text: &str, max_len: usize, kernels: &T5Kernels<N2, S2, F2, G2, R2, D2>) -> (res: Option<
        Result<Tensor<T>>,
    >)
        requires
            can_add::<T>(),
            can_multiply::<T>(),
            crate::models::t5::forward::kernels_fit(*kernels),
        ensures
            match res {
                Some(outcome) => encode_t5_gives(
                    outcome,
                    *self,
                    text@,
                    max_len as int,
                    *kernels,
                ),
                None => !encode_allowed(*self, text@, max_len as int, kernels.step),
            },
    {
        match &self.inner {
            Inner::T5 { model, tokenizer } => {
                if !model.is_consistent() {
                    return None;
                }
                let enc = match tokenizer.encode(text, max_len) {
                    Ok(enc) => enc,
                    Err(e) => {
                        return Some(Err(e));
                    },
                };
                match model.try_encode(enc.input_ids.as_slice(), kernels) {
                    Some(out) => Some(Ok(out)),
                    None => None,
                }
            },
            _ => Some(Err(Error::InvalidInput("encode_t5() is only valid for T5-family models"))),
        }
    }
}

} // verus!
