use wasmicro::error::Error;
use wasmicro::loader::ModelFile;
use wasmicro::models::bert::forward::EncoderKernels;
use wasmicro::models::gpt2::forward::DecoderKernels;
use wasmicro::models::gpt2::{Gpt2Config, Gpt2Model};
use wasmicro::models::t5::forward::T5Kernels;
use wasmicro::ops::layernorm::layer_norm_row;
use wasmicro::ops::rms_norm::rms_norm_row;
use wasmicro::ops::softmax::softmax_row;
use wasmicro::pipeline::{
    detect_model_type, family_of, read_lowercase, read_model_type, DefaultEps, Family, Inner,
    Pipeline,
};
use wasmicro::writer::{write_safetensors, OutputTensor};

fn exp(v: f32) -> f32 {
    v.exp()
}

fn reciprocal(v: f32) -> f32 {
    1.0 / v
}

fn number(n: usize) -> f32 {
    n as f32
}

fn inv_sqrt(v: f32) -> f32 {
    1.0 / v.sqrt()
}

fn inv_count(n: usize) -> f32 {
    1.0 / n as f32
}

fn score_factor(head_dim: usize) -> f32 {
    1.0 / (head_dim as f32).sqrt()
}

fn softmax(row: &[f32]) -> Vec<f32> {
    softmax_row(row, f32::NEG_INFINITY, &exp, &reciprocal)
}

fn norm(row: &[f32], gamma: &[f32], beta: &[f32], eps: f32) -> Vec<f32> {
    layer_norm_row(row, gamma, beta, eps, &number, &inv_sqrt)
}

fn rms(row: &[f32], weight: &[f32], eps: f32) -> Vec<f32> {
    rms_norm_row(row, weight, eps, &number, &inv_sqrt)
}

fn gelu(v: f32) -> f32 {
    let c = (2.0 / std::f32::consts::PI).sqrt();
    0.5 * v * (1.0 + (c * (v + 0.044715 * v * v * v)).tanh())
}

fn relu(v: f32) -> f32 {
    v.max(0.0)
}

fn step(distance: usize, max_exact: usize, max_distance: usize, left: usize) -> usize {
    let log = (distance as f32 / max_exact as f32).ln()
        / (max_distance as f32 / max_exact as f32).ln()
        * left as f32;
    log as usize
}

type Norm = fn(&[f32], &[f32], &[f32], f32) -> Vec<f32>;
type RmsNorm = fn(&[f32], &[f32], f32) -> Vec<f32>;

fn encoder() -> EncoderKernels<Norm, fn(&[f32]) -> Vec<f32>, fn(f32) -> f32, fn(usize) -> f32> {
    EncoderKernels { norm, softmax, activation: gelu, score_factor }
}

fn decoder() -> DecoderKernels<Norm, fn(&[f32]) -> Vec<f32>, fn(f32) -> f32, fn(usize) -> f32> {
    DecoderKernels { norm, softmax, activation: gelu, score_factor }
}

fn t5_kernels() -> T5Kernels<
    RmsNorm,
    fn(&[f32]) -> Vec<f32>,
    fn(usize) -> f32,
    fn(f32) -> f32,
    fn(f32) -> f32,
    fn(usize, usize, usize, usize) -> usize,
> {
    T5Kernels { norm: rms, softmax, score_factor, gelu, relu, step }
}

fn parse(text: &str) -> Option<f32> {
    text.parse().ok()
}

#[test]
fn detect_model_type_bert() {
    let json = r#"{"model_type": "bert", "hidden_size": 768}"#;
    assert_eq!(detect_model_type(json), "bert");
}

#[test]
fn detect_model_type_gpt2() {
    let json = r#"{"model_type":"gpt2","n_embd":768}"#;
    assert_eq!(detect_model_type(json), "gpt2");
}

#[test]
fn detect_model_type_t5() {
    let json = r#"{"model_type": "t5", "d_model": 512}"#;
    assert_eq!(detect_model_type(json), "t5");
}

#[test]
fn detect_model_type_missing() {
    assert_eq!(detect_model_type("{}"), "");
}

#[test]
fn white_space_around_colons_makes_no_difference() {
    assert_eq!(detect_model_type(r#"{"model_type" : "bert"}"#), "bert");
    assert_eq!(detect_model_type("{\"model_type\"\n\t:\r\n\"t5\"}"), "t5");
    // A key is a key only with a colon behind it.
    assert_eq!(detect_model_type(r#"{"a": "model_type", "model_type": "gpt2"}"#), "gpt2");
    assert_eq!(detect_model_type(r#"{"a": "model_type"}"#), "");
    let spaced = GPT2_CONFIG.replace(':', " : ");
    let plain = Gpt2Config::from_config_json(GPT2_CONFIG, &parse, 1e-5).unwrap();
    let config = Gpt2Config::from_config_json(&spaced, &parse, 1e-5).unwrap();
    assert_eq!(config.hidden_size, plain.hidden_size);
    assert_eq!(config.num_hidden_layers, plain.num_hidden_layers);
    assert_eq!(config.max_position_embeddings, plain.max_position_embeddings);
}

#[test]
fn model_type_is_lowercased() {
    assert_eq!(read_model_type(r#"{"model_type": "BERT"}"#), Some("BERT".to_string()));
    assert_eq!(detect_model_type(r#"{"model_type": "BERT"}"#), "bert");
    assert_eq!(Pipeline::<f32>::detected_model_type(r#"{"model_type":"T5"}"#), "t5");
    assert_eq!(detect_model_type(r#"{"model_type": 5}"#), "");
    assert_eq!(detect_model_type(r#"{"model_type": "gpt2"#), "gpt2");
}

#[test]
fn families_of_model_types() {
    for name in ["bert", "roberta", "distilbert", "electra", "albert"] {
        assert_eq!(family_of(name), Some(Family::Bert));
    }
    for name in ["gpt2", "gpt_neo", "gpt_neox", "gptj"] {
        assert_eq!(family_of(name), Some(Family::Gpt2));
    }
    for name in ["t5", "mt5", "longt5", "umt5"] {
        assert_eq!(family_of(name), Some(Family::T5));
    }
    assert_eq!(family_of("llama"), None);
    assert_eq!(family_of(""), None);
}

#[test]
fn lowercasing_follows_the_configuration() {
    assert!(read_lowercase("{}"));
    assert!(read_lowercase(r#"{"do_lower_case": true}"#));
    assert!(!read_lowercase(r#"{"do_lower_case": false, "use_cache": true}"#));
    assert!(read_lowercase(r#"{"do_lower_case": false}"#));
    assert!(!read_lowercase(r#"{"name": "uncased", "do_lower_case": true}"#));
}

fn filled(name: &str, shape: &[usize], v: f32) -> OutputTensor {
    let n: usize = shape.iter().product();
    OutputTensor {
        name: name.to_string(),
        dtype: "F32",
        shape: shape.to_vec(),
        data: (0..n).flat_map(|_| v.to_le_bytes()).collect(),
    }
}

const BERT_CONFIG: &str = r#"{"model_type": "bert", "hidden_size": 4, "num_hidden_layers": 1,
    "num_attention_heads": 2, "intermediate_size": 8, "vocab_size": 8,
    "max_position_embeddings": 6, "type_vocab_size": 2}"#;
const BERT_VOCAB: &[u8] = b"[PAD]\n[UNK]\n[CLS]\n[SEP]\n[MASK]\nhello\n##s\nworld\n";

fn bert_file() -> Vec<u8> {
    let mut tensors = vec![
        filled("embeddings.word_embeddings.weight", &[8, 4], 0.1),
        filled("embeddings.position_embeddings.weight", &[6, 4], 0.2),
        filled("embeddings.token_type_embeddings.weight", &[2, 4], 0.3),
        filled("embeddings.LayerNorm.weight", &[4], 1.0),
        filled("embeddings.LayerNorm.bias", &[4], 0.5),
    ];
    let layer: [(&str, &[usize]); 16] = [
        ("attention.self.query.weight", &[4, 4]),
        ("attention.self.query.bias", &[4]),
        ("attention.self.key.weight", &[4, 4]),
        ("attention.self.key.bias", &[4]),
        ("attention.self.value.weight", &[4, 4]),
        ("attention.self.value.bias", &[4]),
        ("attention.output.dense.weight", &[4, 4]),
        ("attention.output.dense.bias", &[4]),
        ("attention.output.LayerNorm.weight", &[4]),
        ("attention.output.LayerNorm.bias", &[4]),
        ("intermediate.dense.weight", &[8, 4]),
        ("intermediate.dense.bias", &[8]),
        ("output.dense.weight", &[4, 8]),
        ("output.dense.bias", &[4]),
        ("output.LayerNorm.weight", &[4]),
        ("output.LayerNorm.bias", &[4]),
    ];
    for (name, shape) in layer {
        tensors.push(filled(&format!("encoder.layer.0.{name}"), shape, 0.25));
    }
    write_safetensors(&tensors)
}

const GPT2_CONFIG: &str = r#"{"model_type":"gpt2","n_embd":2,"n_layer":1,"n_head":1,
    "n_inner":3,"vocab_size":4,"n_positions":8}"#;
const BPE_VOCAB: &[u8] = br#"{"a": 0, "b": 1, "ab": 2, "c": 3}"#;
const BPE_MERGES: &[u8] = b"#version: 0\na b\n";

fn gpt2_file() -> Vec<u8> {
    let shapes: [(&str, &[usize]); 16] = [
        ("wte.weight", &[4, 2]),
        ("wpe.weight", &[8, 2]),
        ("h.0.ln_1.weight", &[2]),
        ("h.0.ln_1.bias", &[2]),
        ("h.0.attn.c_attn.weight", &[2, 6]),
        ("h.0.attn.c_attn.bias", &[6]),
        ("h.0.attn.c_proj.weight", &[2, 2]),
        ("h.0.attn.c_proj.bias", &[2]),
        ("h.0.ln_2.weight", &[2]),
        ("h.0.ln_2.bias", &[2]),
        ("h.0.mlp.c_fc.weight", &[2, 3]),
        ("h.0.mlp.c_fc.bias", &[3]),
        ("h.0.mlp.c_proj.weight", &[3, 2]),
        ("h.0.mlp.c_proj.bias", &[2]),
        ("ln_f.weight", &[2]),
        ("ln_f.bias", &[2]),
    ];
    let tensors: Vec<OutputTensor> =
        shapes.iter().map(|(name, shape)| filled(name, shape, 0.5)).collect();
    write_safetensors(&tensors)
}

const T5_CONFIG: &str = r#"{"model_type":"t5","d_model":2,"d_ff":3,"d_kv":2,"num_heads":1,
    "num_layers":1,"vocab_size":4,"relative_attention_num_buckets":4}"#;

fn t5_file() -> Vec<u8> {
    let mut tensors = vec![
        filled("shared.weight", &[4, 2], 0.5),
        filled("encoder.final_layer_norm.weight", &[2], 1.0),
        filled("decoder.final_layer_norm.weight", &[2], 1.0),
    ];
    let square: &[usize] = &[2, 2];
    for side in ["encoder", "decoder"] {
        let block = format!("{side}.block.0.layer");
        for w in ["q", "k", "v", "o"] {
            tensors.push(filled(&format!("{block}.0.SelfAttention.{w}.weight"), square, 0.5));
        }
        let bias = format!("{block}.0.SelfAttention.relative_attention_bias.weight");
        tensors.push(filled(&bias, &[4, 1], 0.5));
        tensors.push(filled(&format!("{block}.0.layer_norm.weight"), &[2], 1.0));
        let ffn = if side == "encoder" { 1 } else { 2 };
        tensors.push(filled(&format!("{block}.{ffn}.DenseReluDense.wi.weight"), &[3, 2], 0.5));
        tensors.push(filled(&format!("{block}.{ffn}.DenseReluDense.wo.weight"), &[2, 3], 0.5));
        tensors.push(filled(&format!("{block}.{ffn}.layer_norm.weight"), &[2], 1.0));
    }
    for w in ["q", "k", "v", "o"] {
        let name = format!("decoder.block.0.layer.1.EncDecAttention.{w}.weight");
        tensors.push(filled(&name, square, 0.5));
    }
    tensors.push(filled("decoder.block.0.layer.1.layer_norm.weight", &[2], 1.0));
    write_safetensors(&tensors)
}

fn eps() -> DefaultEps<f32> {
    DefaultEps { bert: 1e-12, gpt2: 1e-5, t5: 1e-6 }
}

fn load(
    model: &[u8],
    vocab: &[u8],
    config: &str,
    merges: Option<&[u8]>,
) -> Result<Pipeline<f32>, Error> {
    let tried = Pipeline::try_from_bytes(
        model,
        vocab,
        config,
        merges,
        &f32::from_bits,
        &parse,
        eps(),
    );
    match tried {
        Ok(Some(_)) => {}
        Ok(None) => panic!("the tensors do not fit"),
        Err(e) => return Err(e),
    }
    Pipeline::from_bytes(model, vocab, config, merges, &f32::from_bits, &parse, eps())
}

#[test]
fn bert_pipeline_embeds() {
    let pipeline = load(&bert_file(), BERT_VOCAB, BERT_CONFIG, None).unwrap();
    assert!(matches!(pipeline.inner, Inner::Bert { .. }));
    assert!(pipeline.can_embed("hello", 6));
    let a = pipeline.embed("hello worlds", 6, &encoder(), &inv_count).unwrap();
    assert_eq!(a.shape().as_slice(), &[4]);
    // The last normalization of equal elements leaves its offset.
    assert_eq!(a.data(), &[0.25; 4]);
    let b = pipeline.try_embed("hello worlds", 6, &encoder(), &inv_count).unwrap().unwrap();
    assert_eq!(a.data(), b.data());
    let batch = pipeline.embed_batch(&["hello", "world"], 6, &encoder(), &inv_count).unwrap();
    assert_eq!(batch.len(), 2);
    let none: Vec<&str> = Vec::new();
    assert_eq!(pipeline.embed_batch(&none, 6, &encoder(), &inv_count).unwrap().len(), 0);

    assert_eq!(
        pipeline.embed("hello", 1, &encoder(), &inv_count).unwrap_err(),
        Error::InvalidTokenizer("max_len must be at least 2")
    );
    assert_eq!(
        pipeline.generate("hello", 3, &decoder(), &t5_kernels()).unwrap_err(),
        Error::InvalidInput("generate() is not supported for BERT-family models")
    );
    assert_eq!(
        pipeline.encode_t5("hello", 3, &t5_kernels()).unwrap_err(),
        Error::InvalidInput("encode_t5() is only valid for T5-family models")
    );
}

#[test]
fn texts_that_are_too_long_for_the_model_are_left_out() {
    let pipeline = load(&bert_file(), BERT_VOCAB, BERT_CONFIG, None).unwrap();
    let text = "hello hello hello hello hello";
    assert!(pipeline.can_embed(text, 6));
    assert!(!pipeline.can_embed(text, 7));
    assert!(pipeline.try_embed(text, 7, &encoder(), &inv_count).unwrap().is_none());
    let texts = ["hello", text];
    assert!(pipeline.try_embed_batch(&texts, 7, &encoder(), &inv_count).unwrap().is_none());
}

#[test]
fn gpt2_pipeline_generates() {
    let pipeline =
        load(&gpt2_file(), BPE_VOCAB, GPT2_CONFIG, Some(BPE_MERGES)).unwrap();
    assert!(matches!(pipeline.inner, Inner::Gpt2 { .. }));
    // All logits are equal, so the last token of the vocabulary comes each time.
    assert_eq!(pipeline.generate("ab", 2, &decoder(), &t5_kernels()).unwrap(), "cc");
    assert_eq!(
        pipeline.try_generate("ab", 2, &decoder(), &t5_kernels()).unwrap().unwrap(),
        "cc"
    );
    assert_eq!(
        pipeline.embed("ab", 3, &encoder(), &inv_count).unwrap_err(),
        Error::InvalidInput("embed() is only supported for BERT-family models")
    );
    assert_eq!(
        pipeline.embed_batch(&["ab"], 3, &encoder(), &inv_count).unwrap_err(),
        Error::InvalidInput("embed_batch() is only supported for BERT-family models")
    );
}

#[test]
fn saves_with_and_without_prefix_hold_the_same_model() {
    let source = gpt2_file();
    let file = ModelFile::parse(&source).unwrap();
    let save = |prefix: &str, backwards: bool| {
        let mut tensors: Vec<OutputTensor> = file
            .names()
            .iter()
            .enumerate()
            .map(|(i, name)| {
                filled(&format!("{prefix}{name}"), file.get(name).unwrap().shape, i as f32)
            })
            .collect();
        if backwards {
            tensors.reverse();
        }
        write_safetensors(&tensors)
    };
    let (bare, prefixed) = (save("", false), save("transformer.", true));
    let config = Gpt2Config::from_config_json(GPT2_CONFIG, &parse, 1e-5).unwrap();
    let models: Vec<Gpt2Model<f32>> = [&bare, &prefixed]
        .iter()
        .map(|bytes| {
            let file = ModelFile::parse(bytes).unwrap();
            assert!(Gpt2Model::can_load(&file, &config));
            Gpt2Model::from_safetensors(&file, config, &f32::from_bits).unwrap()
        })
        .collect();
    assert_eq!(models[0].wte.data(), models[1].wte.data());
    assert_eq!(models[0].layers.len(), models[1].layers.len());
    assert_eq!(models[0].layers[0].attn.c_attn_w.data(), models[1].layers[0].attn.c_attn_w.data());
    assert_eq!(models[0].layers[0].mlp.proj_b.data(), models[1].layers[0].mlp.proj_b.data());
    assert_eq!(models[0].lm_head.data(), models[1].lm_head.data());
    let logits = |model: &Gpt2Model<f32>| model.logits(&[1, 3, 2], &decoder());
    assert_eq!(logits(&models[0]).data(), logits(&models[1]).data());
}

#[test]
fn t5_pipeline_encodes_and_generates() {
    let pipeline = load(&t5_file(), BPE_VOCAB, T5_CONFIG, Some(BPE_MERGES)).unwrap();
    assert!(matches!(pipeline.inner, Inner::T5 { .. }));
    let hidden = pipeline.encode_t5("abc", 8, &t5_kernels()).unwrap();
    assert_eq!(hidden.shape().as_slice()[1], 2);
    let tried = pipeline.try_encode_t5("abc", 8, &t5_kernels()).unwrap().unwrap();
    assert_eq!(hidden.data(), tried.data());
    assert_eq!(pipeline.generate("abc", 3, &decoder(), &t5_kernels()).unwrap(), "ccc");
    let generated = pipeline.try_generate("abc", 3, &decoder(), &t5_kernels());
    assert_eq!(generated.unwrap().unwrap(), "ccc");
}

#[test]
fn pipeline_errors() {
    let error = |model: &[u8], config: &str, merges: Option<&[u8]>| {
        match load(model, BPE_VOCAB, config, merges) {
            Ok(_) => panic!("expected an error"),
            Err(e) => e,
        }
    };
    assert_eq!(error(&[], GPT2_CONFIG, None), Error::HeaderTooShort);
    assert_eq!(
        error(&gpt2_file(), "{}", None),
        Error::InvalidInput(
            "unsupported model_type in config.json (supported: bert/roberta/distilbert/gpt2/t5)"
        )
    );
    assert_eq!(
        error(&gpt2_file(), GPT2_CONFIG, None),
        Error::InvalidInput("GPT-2 models require merges_bytes (merges.txt)")
    );
    assert_eq!(
        error(&t5_file(), T5_CONFIG, None),
        Error::InvalidInput("T5 models require merges_bytes (merges.txt)")
    );
    assert_eq!(
        error(&t5_file(), GPT2_CONFIG, Some(BPE_MERGES)),
        Error::TensorNotFound
    );
    assert_eq!(
        error(&gpt2_file(), r#"{"model_type":"gpt2"}"#, Some(BPE_MERGES)),
        Error::InvalidInput("config.json: missing n_embd/hidden_size")
    );
}
