use wasmicro::error::Error;
use wasmicro::loader::ModelFile;
use wasmicro::models::bert::forward::EncoderKernels;
use wasmicro::models::bert::{
    BertAttention, BertConfig, BertEmbeddings, BertFeedForward, BertLayer, BertModel,
    BertSelfAttention, LinearWeight,
};
use wasmicro::models::generate::argmax;
use wasmicro::models::gpt2::forward::DecoderKernels;
use wasmicro::models::gpt2::{
    check_gpt2_default, split_qkv, transpose_2d, Gpt2Attention, Gpt2Config, Gpt2Layer, Gpt2Mlp, Gpt2Model,
};
use wasmicro::models::t5::forward::T5Kernels;
use wasmicro::models::t5::{
    check_t5_default, compute_relative_bias, relative_position_bucket,
    try_compute_relative_bias, T5Config, T5CrossAttention, T5DecoderLayer,
    T5EncoderLayer, T5Ffn, T5Model, T5SelfAttention,
};
use wasmicro::ops::attention::queries::{
    causal_multi_head_attention_from_qkv, cross_attention_from_qkv, multi_head_attention_with_bias,
};
use wasmicro::ops::attention::{extract_head, write_head_back};
use wasmicro::ops::elementwise::scale;
use wasmicro::ops::layernorm::layer_norm_row;
use wasmicro::ops::matmul::{matmul, matmul_t_b};
use wasmicro::ops::rms_norm::rms_norm_row;
use wasmicro::ops::softmax::{softmax_row, softmax_rows};
use wasmicro::quant::{QuantizedTensorI8, QuantizedTensorU8};
use wasmicro::tensor::Tensor;
use wasmicro::tokenizer::WordPieceTokenizer;
use wasmicro::writer::{write_safetensors, OutputTensor};

fn exp(v: f32) -> f32 {
    v.exp()
}

fn reciprocal(v: f32) -> f32 {
    1.0 / v
}

fn number(n: usize) -> f32 {
    n as f32
}

fn inv_sqrt(v: f32) -> f32 {
    1.0 / v.sqrt()
}

fn inv_count(n: usize) -> f32 {
    1.0 / n as f32
}

fn score_factor(head_dim: usize) -> f32 {
    1.0 / (head_dim as f32).sqrt()
}

fn softmax(row: &[f32]) -> Vec<f32> {
    softmax_row(row, f32::NEG_INFINITY, &exp, &reciprocal)
}

fn norm(row: &[f32], gamma: &[f32], beta: &[f32], eps: f32) -> Vec<f32> {
    layer_norm_row(row, gamma, beta, eps, &number, &inv_sqrt)
}

fn rms(row: &[f32], weight: &[f32], eps: f32) -> Vec<f32> {
    rms_norm_row(row, weight, eps, &number, &inv_sqrt)
}

fn gelu(v: f32) -> f32 {
    let c = (2.0 / std::f32::consts::PI).sqrt();
    0.5 * v * (1.0 + (c * (v + 0.044715 * v * v * v)).tanh())
}

fn relu(v: f32) -> f32 {
    v.max(0.0)
}

fn step(distance: usize, max_exact: usize, max_distance: usize, left: usize) -> usize {
    let log = (distance as f32 / max_exact as f32).ln()
        / (max_distance as f32 / max_exact as f32).ln()
        * left as f32;
    log as usize
}

/// Attention with an optional bias on the scores. A causal one hides the positions
/// behind each position with scores that weigh nothing.
fn attend(
    q: &Tensor<f32>,
    k: &Tensor<f32>,
    v: &Tensor<f32>,
    heads: usize,
    bias: Option<&Tensor<f32>>,
    causal: bool,
) -> Tensor<f32> {
    let (rows, hidden) = (q.shape().as_slice()[0], q.shape().as_slice()[1]);
    let cols = k.shape().as_slice()[0];
    let mut out = vec![0.0f32; rows * hidden];
    for h in 0..heads {
        let raw = matmul_t_b(&extract_head(q, h, heads), &extract_head(k, h, heads));
        let mut scores = scale(&raw, score_factor(hidden / heads));
        for i in 0..rows {
            for j in 0..cols {
                let s = &mut scores.data_mut()[i * cols + j];
                if let Some(b) = bias {
                    *s += b.data()[(h * rows + i) * cols + j];
                }
                if causal && j > i {
                    *s = f32::NEG_INFINITY;
                }
            }
        }
        let weights = softmax_rows(&scores, &softmax);
        let head = matmul(&weights, &extract_head(v, h, heads));
        write_head_back(&mut out, &head, h, heads);
    }
    Tensor::from_vec(out, &[rows, hidden])
}

type Norm = fn(&[f32], &[f32], &[f32], f32) -> Vec<f32>;
type RmsNorm = fn(&[f32], &[f32], f32) -> Vec<f32>;

fn encoder() -> EncoderKernels<Norm, fn(&[f32]) -> Vec<f32>, fn(f32) -> f32, fn(usize) -> f32> {
    EncoderKernels { norm, softmax, activation: gelu, score_factor }
}

fn decoder() -> DecoderKernels<Norm, fn(&[f32]) -> Vec<f32>, fn(f32) -> f32, fn(usize) -> f32> {
    DecoderKernels { norm, softmax, activation: gelu, score_factor }
}

fn t5_kernels() -> T5Kernels<
    RmsNorm,
    fn(&[f32]) -> Vec<f32>,
    fn(usize) -> f32,
    fn(f32) -> f32,
    fn(f32) -> f32,
    fn(usize, usize, usize, usize) -> usize,
> {
    T5Kernels { norm: rms, softmax, score_factor, gelu, relu, step }
}

fn parse(text: &str) -> Option<f32> {
    text.parse().ok()
}

/// Builds a deterministic, tiny BERT for smoke testing.
fn tiny_bert() -> (BertConfig<f32>, BertModel<f32>) {
    let config = BertConfig {
        hidden_size: 8,
        num_hidden_layers: 2,
        num_attention_heads: 2,
        intermediate_size: 16,
        vocab_size: 16,
        max_position_embeddings: 32,
        type_vocab_size: 2,
        layer_norm_eps: 1e-12,
    };

    let hidden = config.hidden_size;
    let inter = config.intermediate_size;

    let ones = |shape: &[usize]| {
        let n: usize = shape.iter().product();
        Tensor::from_vec(vec![0.01f32; n], shape)
    };
    let linear_ones = |shape: &[usize]| LinearWeight::F32(ones(shape));
    let one_vec = |n: usize| Tensor::from_vec(vec![1.0f32; n], &[n]);
    let zero_vec = |n: usize| Tensor::from_vec(vec![0.0f32; n], &[n]);

    let embeddings = BertEmbeddings {
        word: ones(&[config.vocab_size, hidden]),
        position: ones(&[config.max_position_embeddings, hidden]),
        token_type: ones(&[config.type_vocab_size, hidden]),
        ln_gamma: one_vec(hidden),
        ln_beta: zero_vec(hidden),
    };

    let mut layers = Vec::new();
    for _ in 0..config.num_hidden_layers {
        layers.push(BertLayer {
            attention: BertAttention {
                self_attn: BertSelfAttention {
                    wq: linear_ones(&[hidden, hidden]),
                    bq: zero_vec(hidden),
                    wk: linear_ones(&[hidden, hidden]),
                    bk: zero_vec(hidden),
                    wv: linear_ones(&[hidden, hidden]),
                    bv: zero_vec(hidden),
                },
                wo: linear_ones(&[hidden, hidden]),
                bo: zero_vec(hidden),
                ln_gamma: one_vec(hidden),
                ln_beta: zero_vec(hidden),
            },
            ffn: BertFeedForward {
                w_inter: linear_ones(&[inter, hidden]),
                b_inter: zero_vec(inter),
                w_out: linear_ones(&[hidden, inter]),
                b_out: zero_vec(hidden),
                ln_gamma: one_vec(hidden),
                ln_beta: zero_vec(hidden),
            },
        });
    }

    (
        config,
        BertModel {
            config,
            embeddings,
            layers,
        },
    )
}

#[test]
fn forward_produces_correct_shape() {
    let (config, model) = tiny_bert();
    let ids = vec![1u32, 2, 3, 4, 5];
    let out = model.forward(&ids, None, &encoder());
    assert_eq!(out.shape().as_slice(), &[ids.len(), config.hidden_size]);
    // Output must contain finite numbers.
    for &v in out.data() {
        assert!(v.is_finite(), "non-finite output: {}", v);
    }
}

#[test]
fn embed_sentence_produces_hidden_vector() {
    let (config, model) = tiny_bert();
    let ids = vec![1u32, 2, 3];
    let emb = model.embed_sentence(&ids, None, None, &encoder(), &inv_count);
    assert_eq!(emb.shape().as_slice(), &[config.hidden_size]);
}

#[test]
fn embed_sentence_respects_attention_mask() {
    let (_config, model) = tiny_bert();
    let ids = vec![1u32, 2, 3, 4];
    let mask = [1u32, 1, 0, 0];
    let masked = model.embed_sentence(&ids, None, Some(&mask), &encoder(), &inv_count);
    let unmasked = model.embed_sentence(&ids[..2], None, None, &encoder(), &inv_count);
    // Masking the last two tokens should give the same result as passing
    // only the first two tokens (the actual hidden states still differ
    // because position embeddings are present, so we just check the
    // outputs are similarly shaped and finite).
    assert_eq!(masked.shape().as_slice(), unmasked.shape().as_slice());
    for &v in masked.data() {
        assert!(v.is_finite());
    }
}

#[test]
fn embed_text_uses_tokenizer_output() {
    let (config, model) = tiny_bert();
    let vocab = b"[PAD]\n[UNK]\n[CLS]\n[SEP]\n[MASK]\nhello\n";
    let tokenizer = WordPieceTokenizer::from_vocab_bytes(vocab).unwrap();
    let embedding = model.embed_text(&tokenizer, "hello", 8, &encoder(), &inv_count).unwrap();
    assert_eq!(embedding.shape().as_slice(), &[config.hidden_size]);
    for &v in embedding.data() {
        assert!(v.is_finite(), "non-finite embedding: {}", v);
    }
}

fn tiny_config() -> Gpt2Config<f32> {
    Gpt2Config {
        hidden_size: 8,
        num_hidden_layers: 2,
        num_attention_heads: 2,
        intermediate_size: 16,
        vocab_size: 32,
        max_position_embeddings: 16,
        layer_norm_eps: 1e-5,
    }
}

fn ones(shape: &[usize]) -> Tensor<f32> {
    let n: usize = shape.iter().product();
    Tensor::from_vec(vec![0.01f32; n], shape)
}

fn build_tiny_gpt2() -> Gpt2Model<f32> {
    let config = tiny_config();
    let h = config.hidden_size;
    let inter = config.intermediate_size;
    let v = config.vocab_size;
    let max_pos = config.max_position_embeddings;

    let layers = (0..config.num_hidden_layers)
        .map(|_| Gpt2Layer {
            ln_1_w: Tensor::from_vec(vec![1.0f32; h], &[h]),
            ln_1_b: Tensor::from_vec(vec![0.0f32; h], &[h]),
            attn: Gpt2Attention {
                c_attn_w: ones(&[3 * h, h]),
                c_attn_b: Tensor::from_vec(vec![0.0f32; 3 * h], &[3 * h]),
                c_proj_w: ones(&[h, h]),
                c_proj_b: Tensor::from_vec(vec![0.0f32; h], &[h]),
            },
            ln_2_w: Tensor::from_vec(vec![1.0f32; h], &[h]),
            ln_2_b: Tensor::from_vec(vec![0.0f32; h], &[h]),
            mlp: Gpt2Mlp {
                fc_w: ones(&[inter, h]),
                fc_b: Tensor::from_vec(vec![0.0f32; inter], &[inter]),
                proj_w: ones(&[h, inter]),
                proj_b: Tensor::from_vec(vec![0.0f32; h], &[h]),
            },
        })
        .collect();

    Gpt2Model {
        config,
        wte: ones(&[v, h]),
        wpe: ones(&[max_pos, h]),
        layers,
        ln_f_w: Tensor::from_vec(vec![1.0f32; h], &[h]),
        ln_f_b: Tensor::from_vec(vec![0.0f32; h], &[h]),
        lm_head: ones(&[v, h]),
        eos_token_id: Some(50256),
    }
}

#[test]
fn forward_shape() {
    let model = build_tiny_gpt2();
    let ids = vec![1u32, 2, 3];
    let out = model.forward(&ids, &decoder());
    assert_eq!(out.shape().as_slice(), &[3, model.config.hidden_size]);
    for &v in out.data() {
        assert!(v.is_finite());
    }
}

#[test]
fn logits_shape() {
    let model = build_tiny_gpt2();
    let ids = vec![1u32, 2];
    let out = model.logits(&ids, &decoder());
    assert_eq!(
        out.shape().as_slice(),
        &[2, model.config.vocab_size]
    );
}

#[test]
fn generate_greedy_extends_sequence() {
    let model = build_tiny_gpt2();
    let prompt = vec![1u32, 2];
    let out = model.generate_greedy(&prompt, 3, &decoder());
    assert!(out.len() >= prompt.len());
    assert!(out.len() <= prompt.len() + 3);
}

#[test]
fn from_config_json_parses_gpt2_fields() {
    let json = r#"{"model_type":"gpt2","n_embd":768,"n_layer":12,"n_head":12,"vocab_size":50257,"n_positions":1024}"#;
    let cfg = Gpt2Config::from_config_json(json, &parse, 1e-5f32).unwrap();
    assert_eq!(cfg.hidden_size, 768);
    assert_eq!(cfg.num_hidden_layers, 12);
    assert_eq!(cfg.vocab_size, 50257);
}

#[test]
fn split_qkv_correct() {
    // qkv = [[0,1,2,3, 4,5,6,7, 8,9,10,11]]  hidden=4
    let data: Vec<f32> = (0..12).map(|v| v as f32).collect();
    let qkv = Tensor::from_vec(data, &[1, 12]);
    let (q, k, v) = split_qkv(&qkv, 4);
    assert_eq!(q.data(), &[0.0, 1.0, 2.0, 3.0]);
    assert_eq!(k.data(), &[4.0, 5.0, 6.0, 7.0]);
    assert_eq!(v.data(), &[8.0, 9.0, 10.0, 11.0]);
}

#[test]
fn transpose_2d_correct() {
    // [[1,2,3],[4,5,6]] -> [[1,4],[2,5],[3,6]]
    let t = Tensor::from_vec(vec![1.0f32, 2.0, 3.0, 4.0, 5.0, 6.0], &[2, 3]);
    let t2 = transpose_2d(&t);
    assert_eq!(t2.shape().as_slice(), &[3, 2]);
    assert_eq!(t2.data(), &[1.0, 4.0, 2.0, 5.0, 3.0, 6.0]);
}

#[test]
fn relative_position_bucket_bidirectional() {
    // Identical positions: bucket 0 or num_buckets/2 offset
    let b0 = relative_position_bucket(0, true, 32, 128, &step);
    let bpos = relative_position_bucket(1, true, 32, 128, &step);
    let bneg = relative_position_bucket(-1, true, 32, 128, &step);
    assert!(
        bpos > b0,
        "positive should map to higher bucket with bidirectional"
    );
    let _ = bneg;
}

#[test]
fn relative_position_bucket_causal() {
    // Past positions (negative relative) get non-zero buckets
    let b0 = relative_position_bucket(0, false, 32, 128, &step);
    let b_past = relative_position_bucket(-5, false, 32, 128, &step);
    assert_eq!(b0, 0);
    assert!(b_past > 0);
}

#[test]
fn compute_bias_shape() {
    // HuggingFace layout: [num_buckets=32, num_heads=8]
    let bw = Tensor::from_vec(vec![0.1f32; 32 * 8], &[32, 8]);
    let bias = compute_relative_bias(&bw, 4, 4, true, 32, 128, &step);
    // Output should be [num_heads=8, q_len=4, k_len=4]
    assert_eq!(bias.shape().as_slice(), &[8, 4, 4]);
}

#[test]
fn from_config_json_parses_t5_fields() {
    let json = r#"{"model_type":"t5","d_model":512,"d_ff":2048,"d_kv":64,"num_heads":8,"num_layers":6,"vocab_size":32128}"#;
    let cfg = T5Config::from_config_json(json, &parse, 1e-6f32).unwrap();
    assert_eq!(cfg.d_model, 512);
    assert_eq!(cfg.d_ff, 2048);
    assert_eq!(cfg.num_heads, 8);
}

#[test]
fn from_config_json_flan_t5_gated() {
    let json = r#"{"model_type":"t5","d_model":512,"d_ff":1024,"d_kv":64,"num_heads":6,"num_layers":8,"vocab_size":32128,"is_gated_act":true}"#;
    let cfg = T5Config::from_config_json(json, &parse, 1e-6f32).unwrap();
    assert!(cfg.is_gated_act);
}

fn f32_le(values: &[f32]) -> Vec<u8> {
    let mut out = Vec::with_capacity(values.len() * 4);
    for &v in values {
        out.extend_from_slice(&v.to_le_bytes());
    }
    out
}

/// Builds a safetensors file containing every tensor BERT expects.
/// `prefix` is prepended to every tensor name (joined with a `.`); pass `""`
/// for sentence-transformers-style saves with no prefix.
///
/// Weights are tiny deterministic patterns - the goal is correctness of the
/// loader + forward plumbing, not numerical accuracy.
fn synthetic_bert_safetensors(config: &BertConfig<f32>, prefix: &str) -> Vec<u8> {
    let h = config.hidden_size;
    let inter = config.intermediate_size;
    let p = if prefix.is_empty() {
        String::new()
    } else {
        format!("{prefix}.")
    };

    // (name, shape)
    let mut entries: Vec<(String, Vec<usize>)> = Vec::new();
    let push = |entries: &mut Vec<(String, Vec<usize>)>, name: &str, shape: Vec<usize>| {
        entries.push((format!("{p}{name}"), shape));
    };

    push(
        &mut entries,
        "embeddings.word_embeddings.weight",
        vec![config.vocab_size, h],
    );
    push(
        &mut entries,
        "embeddings.position_embeddings.weight",
        vec![config.max_position_embeddings, h],
    );
    push(
        &mut entries,
        "embeddings.token_type_embeddings.weight",
        vec![config.type_vocab_size, h],
    );
    push(&mut entries, "embeddings.LayerNorm.weight", vec![h]);
    push(&mut entries, "embeddings.LayerNorm.bias", vec![h]);

    for i in 0..config.num_hidden_layers {
        let layer_entries = [
            ("attention.self.query.weight", vec![h, h]),
            ("attention.self.query.bias", vec![h]),
            ("attention.self.key.weight", vec![h, h]),
            ("attention.self.key.bias", vec![h]),
            ("attention.self.value.weight", vec![h, h]),
            ("attention.self.value.bias", vec![h]),
            ("attention.output.dense.weight", vec![h, h]),
            ("attention.output.dense.bias", vec![h]),
            ("attention.output.LayerNorm.weight", vec![h]),
            ("attention.output.LayerNorm.bias", vec![h]),
            ("intermediate.dense.weight", vec![inter, h]),
            ("intermediate.dense.bias", vec![inter]),
            ("output.dense.weight", vec![h, inter]),
            ("output.dense.bias", vec![h]),
            ("output.LayerNorm.weight", vec![h]),
            ("output.LayerNorm.bias", vec![h]),
        ];
        for (suffix, shape) in layer_entries {
            push(&mut entries, &format!("encoder.layer.{i}.{suffix}"), shape);
        }
    }

    let mut header = String::from("{");
    let mut offset = 0usize;
    let mut payload = Vec::new();
    for (i, (name, shape)) in entries.iter().enumerate() {
        if i > 0 {
            header.push(',');
        }
        let n: usize = shape.iter().product();
        let shape_csv = shape
            .iter()
            .map(|x| x.to_string())
            .collect::<Vec<_>>()
            .join(",");

        // Deterministic per-role values: keep LayerNorm.weight at 1, biases
        // at 0, everything else small and positive so forward stays finite.
        let values: Vec<f32> = if name.ends_with("LayerNorm.weight") {
            vec![1.0; n]
        } else if name.ends_with(".bias") {
            vec![0.0; n]
        } else {
            vec![0.01; n]
        };
        let bytes = f32_le(&values);
        let len = bytes.len();

        header.push_str(&format!(
            r#""{name}":{{"dtype":"F32","shape":[{shape_csv}],"data_offsets":[{offset},{end}]}}"#,
            end = offset + len,
        ));
        offset += len;
        payload.extend_from_slice(&bytes);
    }
    header.push('}');

    let header_bytes = header.into_bytes();
    let mut out = Vec::new();
    out.extend_from_slice(&(header_bytes.len() as u64).to_le_bytes());
    out.extend_from_slice(&header_bytes);
    out.extend_from_slice(&payload);
    out
}

#[test]
fn bert_from_safetensors_runs_forward() {
    let config = BertConfig {
        hidden_size: 8,
        num_hidden_layers: 2,
        num_attention_heads: 2,
        intermediate_size: 16,
        vocab_size: 16,
        max_position_embeddings: 32,
        type_vocab_size: 2,
        layer_norm_eps: 1e-12,
    };

    let bytes = synthetic_bert_safetensors(&config, "");
    let file = ModelFile::parse(&bytes).expect("parse safetensors");
    let model = BertModel::from_safetensors(&file, config, "", &f32::from_bits).expect("build BertModel");

    let ids = vec![1u32, 2, 3, 4];
    let hidden = model.forward(&ids, None, &encoder());
    assert_eq!(hidden.shape().as_slice(), &[ids.len(), config.hidden_size]);
    for &v in hidden.data() {
        assert!(v.is_finite(), "non-finite hidden state: {v}");
    }

    let emb = model.embed_sentence(&ids, None, None, &encoder(), &inv_count);
    assert_eq!(emb.shape().as_slice(), &[config.hidden_size]);
    for &v in emb.data() {
        assert!(v.is_finite(), "non-finite embedding: {v}");
    }
}

#[test]
fn bert_with_prefix_loads_correctly() {
    let config = BertConfig {
        hidden_size: 4,
        num_hidden_layers: 1,
        num_attention_heads: 2,
        intermediate_size: 8,
        vocab_size: 8,
        max_position_embeddings: 16,
        type_vocab_size: 2,
        layer_norm_eps: 1e-12,
    };

    // Save with `bert.` prefix on every tensor (the `transformers.BertModel`
    // save layout), then load with the same prefix.
    let bytes = synthetic_bert_safetensors(&config, "bert");
    let file = ModelFile::parse(&bytes).expect("parse prefixed safetensors");
    let model = BertModel::from_safetensors(&file, config, "bert", &f32::from_bits).expect("load with prefix");

    let ids = vec![1u32, 2];
    let out = model.forward(&ids, None, &encoder());
    assert_eq!(out.shape().as_slice(), &[2, config.hidden_size]);
}

#[test]
fn missing_prefix_gives_clear_error() {
    let config = BertConfig {
        hidden_size: 4,
        num_hidden_layers: 1,
        num_attention_heads: 2,
        intermediate_size: 8,
        vocab_size: 8,
        max_position_embeddings: 16,
        type_vocab_size: 2,
        layer_norm_eps: 1e-12,
    };
    // File written with prefix `bert.`, but caller forgets it.
    let bytes = synthetic_bert_safetensors(&config, "bert");
    let file = ModelFile::parse(&bytes).unwrap();
    match BertModel::from_safetensors(&file, config, "", &f32::from_bits) {
        Ok(_) => panic!("expected TensorNotFound"),
        Err(e) => assert_eq!(e, Error::TensorNotFound),
    }
}

// BERT.

#[test]
fn bert_presets() {
    let mini = BertConfig::mini_lm_l6_v2(1e-12f32);
    assert_eq!((mini.hidden_size, mini.num_hidden_layers, mini.intermediate_size), (384, 6, 1536));
    let base = BertConfig::bert_base(1e-12f32);
    assert_eq!((base.hidden_size, base.num_attention_heads, base.vocab_size), (768, 12, 30522));
}

#[test]
fn bert_config_json_names_what_is_missing() {
    let error = |json: &str| BertConfig::from_config_json(json, &parse, 1.0f32).unwrap_err();
    assert_eq!(error("{}"), Error::InvalidInput("config.json: missing hidden_size"));
    assert_eq!(
        error(r#"{"hidden_size": 8}"#),
        Error::InvalidInput("config.json: missing num_hidden_layers")
    );
    let json = r#"{"hidden_size": 8, "num_hidden_layers": 2, "num_attention_heads": 2,
        "intermediate_size": 16, "vocab_size": 30, "layer_norm_eps": 1e-3}"#;
    let config = BertConfig::from_config_json(json, &parse, 1.0f32).unwrap();
    assert_eq!(config.hidden_size, 8);
    assert_eq!(config.vocab_size, 30);
    assert_eq!(config.layer_norm_eps, 1e-3);
}

#[test]
fn bert_accepts_ids_inside_its_tables() {
    let (_, model) = tiny_bert();
    assert!(model.is_consistent());
    assert!(model.accepts(&[0, 15], None));
    assert!(!model.accepts(&[16], None));
    assert!(!model.accepts(&[], None));
    assert!(!model.accepts(&[0; 33], None));
    assert!(model.accepts(&[1, 2], Some(&[0, 1])));
    assert!(!model.accepts(&[1, 2], Some(&[0, 2])));
    assert!(!model.accepts(&[1, 2], Some(&[0])));
}

#[test]
fn inconsistent_bert_is_noticed() {
    let (_, mut model) = tiny_bert();
    model.layers[1].ffn.b_out = Tensor::from_vec(vec![0.0f32; 7], &[7]);
    assert!(!model.is_consistent());
}

#[test]
fn try_embed_text_agrees_with_embed_text() {
    let (_, model) = tiny_bert();
    let vocab = b"[PAD]\n[UNK]\n[CLS]\n[SEP]\n[MASK]\nhello\n";
    let tokenizer = WordPieceTokenizer::from_vocab_bytes(vocab).unwrap();
    let a = model.embed_text(&tokenizer, "hello", 8, &encoder(), &inv_count).unwrap();
    let b = model.try_embed_text(&tokenizer, "hello", 8, &encoder(), &inv_count).unwrap();
    assert_eq!(a.data(), b.unwrap().data());
    // More tokens than positions.
    let long = "hello ".repeat(40);
    assert!(model
        .try_embed_text(&tokenizer, &long, 64, &encoder(), &inv_count)
        .unwrap()
        .is_none());
    // No room for the special tokens.
    assert!(model.try_embed_text(&tokenizer, "hello", 1, &encoder(), &inv_count).is_err());
}

#[test]
fn bert_prefix_is_found() {
    let (config, _) = tiny_bert();
    let bytes = synthetic_bert_safetensors(&config, "bert");
    let file = ModelFile::parse(&bytes).unwrap();
    assert_eq!(BertModel::<f32>::find_prefix(&file), "bert");
    assert!(BertModel::can_load(&file, &config, "bert"));
    let a = BertModel::from_safetensors_auto(&file, config, &f32::from_bits).unwrap();
    let b = BertModel::from_safetensors(&file, config, "bert", &f32::from_bits).unwrap();
    assert!(a.is_consistent());
    assert_eq!(a.embeddings.word.data(), b.embeddings.word.data());
    let plain = synthetic_bert_safetensors(&config, "");
    let file = ModelFile::parse(&plain).unwrap();
    assert_eq!(BertModel::<f32>::find_prefix(&file), "");
}

#[test]
fn quantized_weights_run_like_full_ones() {
    let (_, model) = tiny_bert();
    let (_, mut quantized) = tiny_bert();
    // 0.01 is one step of the scale 0.01.
    quantized.layers[0].attention.wo =
        LinearWeight::I8(QuantizedTensorI8::from_vec(vec![1; 64], &[8, 8], vec![0.01f32]));
    quantized.layers[1].ffn.w_out = LinearWeight::U8(QuantizedTensorU8::from_vec(
        vec![4; 128],
        &[8, 16],
        vec![0.01f32],
        vec![3],
    ));
    assert!(quantized.is_consistent());
    let a = model.forward(&[1, 2, 3], None, &encoder());
    let b = quantized.forward(&[1, 2, 3], None, &encoder());
    for (x, y) in a.data().iter().zip(b.data()) {
        assert!((x - y).abs() < 1e-4);
    }
}

// GPT-2.

fn named(name: &str, shape: &[usize], values: &[f32]) -> OutputTensor {
    OutputTensor {
        name: name.to_string(),
        dtype: "F32",
        shape: shape.to_vec(),
        data: f32_le(values),
    }
}

/// A GPT-2 file with one layer, hidden size 2, and the given name prefix.
fn gpt2_file(prefix: &str, with_head: bool) -> Vec<u8> {
    let mut tensors = Vec::new();
    let mut push = |name: &str, shape: &[usize]| {
        let n: usize = shape.iter().product();
        let values: Vec<f32> = (0..n).map(|v| v as f32).collect();
        tensors.push(named(&format!("{prefix}{name}"), shape, &values));
    };
    push("wte.weight", &[4, 2]);
    push("wpe.weight", &[3, 2]);
    push("h.0.ln_1.weight", &[2]);
    push("h.0.ln_1.bias", &[2]);
    push("h.0.attn.c_attn.weight", &[2, 6]);
    push("h.0.attn.c_attn.bias", &[6]);
    push("h.0.attn.c_proj.weight", &[2, 2]);
    push("h.0.attn.c_proj.bias", &[2]);
    push("h.0.ln_2.weight", &[2]);
    push("h.0.ln_2.bias", &[2]);
    push("h.0.mlp.c_fc.weight", &[2, 3]);
    push("h.0.mlp.c_fc.bias", &[3]);
    push("h.0.mlp.c_proj.weight", &[3, 2]);
    push("h.0.mlp.c_proj.bias", &[2]);
    push("ln_f.weight", &[2]);
    push("ln_f.bias", &[2]);
    if with_head {
        tensors.push(named("lm_head.weight", &[4, 2], &[9.0; 8]));
    }
    write_safetensors(&tensors)
}

fn one_layer_config() -> Gpt2Config<f32> {
    Gpt2Config {
        hidden_size: 2,
        num_hidden_layers: 1,
        num_attention_heads: 1,
        intermediate_size: 3,
        vocab_size: 4,
        max_position_embeddings: 3,
        layer_norm_eps: 1e-5,
    }
}

#[test]
fn gpt2_weights_are_transposed_and_the_head_is_tied() {
    for prefix in ["", "transformer."] {
        let bytes = gpt2_file(prefix, false);
        let file = ModelFile::parse(&bytes).unwrap();
        assert!(Gpt2Model::can_load(&file, &one_layer_config()));
        let model =
            Gpt2Model::from_safetensors(&file, one_layer_config(), &f32::from_bits).unwrap();
        assert!(model.is_consistent());
        let w = &model.layers[0].attn.c_attn_w;
        assert_eq!(w.shape().as_slice(), &[6, 2]);
        assert_eq!(w.data()[..4], [0.0, 6.0, 1.0, 7.0]);
        assert_eq!(model.lm_head.data(), model.wte.data());
        assert_eq!(model.eos_token_id, Some(50256));
    }
}

#[test]
fn gpt2_head_is_loaded_where_it_is_there() {
    let bytes = gpt2_file("", true);
    let file = ModelFile::parse(&bytes).unwrap();
    let model = Gpt2Model::from_safetensors(&file, one_layer_config(), &f32::from_bits).unwrap();
    assert_eq!(model.lm_head.data(), &[9.0; 8]);
}

#[test]
fn gpt2_without_a_layer_is_an_error() {
    let bytes = gpt2_file("", false);
    let file = ModelFile::parse(&bytes).unwrap();
    let config = Gpt2Config { num_hidden_layers: 2, ..one_layer_config() };
    match Gpt2Model::from_safetensors(&file, config, &f32::from_bits) {
        Ok(_) => panic!("expected TensorNotFound"),
        Err(e) => assert_eq!(e, Error::TensorNotFound),
    }
}

#[test]
fn transposing_twice_gives_the_matrix_back() {
    let t = Tensor::from_vec(vec![1, 2, 3, 4, 5, 6], &[2, 3]);
    let back = transpose_2d(&transpose_2d(&t));
    assert_eq!(back.shape().as_slice(), &[2, 3]);
    assert_eq!(back.data(), t.data());
}

#[test]
fn gpt2_presets() {
    let small = Gpt2Config::gpt2_small(1e-5f32);
    assert_eq!((small.hidden_size, small.num_hidden_layers, small.vocab_size), (768, 12, 50257));
    let medium = Gpt2Config::gpt2_medium(1e-5f32);
    assert_eq!((medium.hidden_size, medium.num_hidden_layers), (1024, 24));
}

#[test]
fn gpt2_config_json_defaults_and_errors() {
    let json = r#"{"n_embd":8,"n_layer":1,"n_head":2,"vocab_size":9}"#;
    assert!(check_gpt2_default(json));
    let config = Gpt2Config::from_config_json(json, &parse, 0.5f32).unwrap();
    assert_eq!(config.intermediate_size, 32);
    assert_eq!(config.max_position_embeddings, 1024);
    assert_eq!(config.layer_norm_eps, 0.5);
    let error = |json: &str| Gpt2Config::from_config_json(json, &parse, 0.5f32).unwrap_err();
    assert_eq!(error("{}"), Error::InvalidInput("config.json: missing n_embd/hidden_size"));
    assert_eq!(
        error(r#"{"n_embd":8,"n_layer":1,"n_head":2}"#),
        Error::InvalidInput("config.json: missing vocab_size")
    );
}

#[test]
fn generation_stops_where_it_should() {
    let mut model = build_tiny_gpt2();
    assert!(model.is_consistent());
    // All logits are equal, so the last token is picked.
    assert_eq!(model.generate_greedy(&[1, 2], 3, &decoder()), vec![1, 2, 31, 31, 31]);
    assert_eq!(model.generate_greedy(&[1, 2], 0, &decoder()), vec![1, 2]);
    // At the last position.
    let out = model.generate_greedy(&[1; 14], 5, &decoder());
    assert_eq!(out.len(), 16);
    assert_eq!(model.generate_greedy(&[1; 16], 5, &decoder()).len(), 16);
    // At the end token.
    model.eos_token_id = Some(31);
    assert_eq!(model.generate_greedy(&[1, 2], 3, &decoder()), vec![1, 2, 31]);
}

#[test]
fn next_token_logits_are_the_last_row() {
    let model = build_tiny_gpt2();
    let all = model.logits(&[3, 4, 5], &decoder());
    let last = model.next_token_logits(&[3, 4, 5], &decoder());
    assert_eq!(last.data(), &all.data()[64..]);
    assert!(model.accepts_length(16));
    assert!(!model.accepts_length(17));
}

#[test]
fn argmax_takes_the_last_of_equal_ones() {
    assert_eq!(argmax(&[1.0f32, 3.0, 2.0]), 1);
    assert_eq!(argmax(&[3.0f32, 1.0, 3.0]), 2);
    assert_eq!(argmax::<f32>(&[]), 0);
}

// T5.

fn filled(shape: &[usize], v: f32) -> Tensor<f32> {
    Tensor::from_vec(vec![v; shape.iter().product()], shape)
}

fn tiny_t5(gated: bool) -> T5Model<f32> {
    let config = T5Config {
        d_model: 4,
        d_ff: 8,
        d_kv: 2,
        num_heads: 2,
        num_encoder_layers: 1,
        num_decoder_layers: 1,
        vocab_size: 6,
        relative_attention_num_buckets: 4,
        relative_attention_max_distance: 8,
        layer_norm_eps: 1e-6,
        is_gated_act: gated,
    };
    let self_attn = || T5SelfAttention {
        q_w: filled(&[4, 4], 0.1),
        k_w: filled(&[4, 4], 0.2),
        v_w: filled(&[4, 4], 0.3),
        o_w: filled(&[4, 4], 0.1),
        rel_bias: Some(filled(&[4, 2], 0.5)),
    };
    let ffn = || T5Ffn {
        wi_w: filled(&[8, 4], 0.1),
        wi_gate_w: if gated { Some(filled(&[8, 4], 0.2)) } else { None },
        wo_w: filled(&[4, 8], 0.1),
    };
    T5Model {
        config,
        shared_emb: filled(&[6, 4], 0.7),
        encoder_layers: vec![T5EncoderLayer {
            self_attn: self_attn(),
            self_attn_ln: filled(&[4], 1.0),
            ffn: ffn(),
            ffn_ln: filled(&[4], 1.0),
        }],
        encoder_final_ln: filled(&[4], 1.0),
        decoder_layers: vec![T5DecoderLayer {
            self_attn: self_attn(),
            self_attn_ln: filled(&[4], 1.0),
            cross_attn: T5CrossAttention {
                q_w: filled(&[4, 4], 0.1),
                k_w: filled(&[4, 4], 0.2),
                v_w: filled(&[4, 4], 0.3),
                o_w: filled(&[4, 4], 0.1),
            },
            cross_attn_ln: filled(&[4], 1.0),
            ffn: ffn(),
            ffn_ln: filled(&[4], 1.0),
        }],
        decoder_final_ln: filled(&[4], 1.0),
        lm_head: filled(&[6, 4], 0.3),
        eos_token_id: 1,
        decoder_start_token_id: 0,
    }
}

#[test]
fn t5_encodes_decodes_and_generates() {
    for gated in [false, true] {
        let mut model = tiny_t5(gated);
        assert!(model.is_consistent());
        let hidden = model.encode(&[1, 2, 3], &t5_kernels());
        assert_eq!(hidden.shape().as_slice(), &[3, 4]);
        // Equal elements have root mean square norm one each.
        for v in hidden.data() {
            assert!((v - 1.0).abs() < 1e-4);
        }
        let logits = model.decode_step(&[0, 5], &hidden, &t5_kernels());
        assert_eq!(logits.shape().as_slice(), &[2, 6]);
        for v in logits.data() {
            assert!((v - 1.2).abs() < 1e-4);
        }
        assert_eq!(model.generate_greedy(&[1, 2, 3], 3, &t5_kernels()), vec![5, 5, 5]);
        assert_eq!(model.generate_greedy(&[1, 2, 3], 0, &t5_kernels()), Vec::<u32>::new());
        model.eos_token_id = 5;
        assert_eq!(model.generate_greedy(&[1, 2, 3], 3, &t5_kernels()), vec![5]);
    }
}

#[test]
fn inconsistent_t5_is_noticed() {
    let mut model = tiny_t5(true);
    model.encoder_layers[0].ffn.wi_gate_w = None;
    assert!(!model.is_consistent());
}

#[test]
fn t5_config_json_defaults_and_errors() {
    let error = |json: &str| T5Config::from_config_json(json, &parse, 1.0f32).unwrap_err();
    assert_eq!(error("{}"), Error::InvalidInput("config.json: missing d_model"));
    assert_eq!(
        error(r#"{"d_model": 128}"#),
        Error::InvalidInput("config.json: missing vocab_size")
    );
    let json = r#"{"d_model": 128, "vocab_size": 7, "num_layers": 3, "num_decoder_layers": 4}"#;
    assert!(check_t5_default(json));
    let config = T5Config::from_config_json(json, &parse, 1.0f32).unwrap();
    assert_eq!((config.d_ff, config.d_kv, config.num_heads), (512, 64, 2));
    assert_eq!((config.num_encoder_layers, config.num_decoder_layers), (3, 4));
    assert_eq!(config.relative_attention_num_buckets, 32);
    assert_eq!(config.relative_attention_max_distance, 128);
    assert!(!config.is_gated_act);
}

#[test]
fn t5_presets() {
    let small = T5Config::t5_small(1e-6f32);
    assert_eq!((small.d_model, small.d_ff, small.num_heads), (512, 2048, 8));
    let base = T5Config::t5_base(1e-6f32);
    assert_eq!((base.d_model, base.num_encoder_layers), (768, 12));
    let flan = T5Config::flan_t5_small(1e-6f32);
    assert!(flan.is_gated_act);
    assert_eq!(flan.num_heads, 6);
}

#[test]
fn buckets_exact_values() {
    // Below half of the buckets of a direction each distance has its own.
    assert_eq!(relative_position_bucket(-3, true, 32, 128, &step), 3);
    assert_eq!(relative_position_bucket(3, true, 32, 128, &step), 19);
    assert_eq!(relative_position_bucket(7, false, 32, 128, &step), 0);
    assert_eq!(relative_position_bucket(-15, false, 32, 128, &step), 15);
    // ln(2) / ln(16) * 8 = 2
    assert_eq!(relative_position_bucket(-17, true, 32, 128, &step), 10);
    // Far away everything shares the last bucket.
    assert_eq!(relative_position_bucket(-10000, true, 32, 128, &step), 15);
    assert_eq!(relative_position_bucket(10000, true, 32, 128, &step), 31);
    // Without room for distances.
    assert_eq!(relative_position_bucket(-9, true, 2, 128, &step), 0);
}

#[test]
fn relative_bias_picks_the_row_of_the_bucket() {
    // Four buckets, two for each direction, one head.
    let table = Tensor::from_vec(vec![10, 11, 12, 13], &[4, 1]);
    let near = |_d: usize, _e: usize, _m: usize, _l: usize| 0usize;
    let bias = compute_relative_bias(&table, 2, 2, true, 4, 8, &near);
    assert_eq!(bias.shape().as_slice(), &[1, 2, 2]);
    assert_eq!(bias.data(), &[10, 13, 11, 10]);
}

#[test]
fn opposite_positions_have_buckets_half_the_table_apart() {
    for distance in 1i32..200 {
        assert_eq!(
            relative_position_bucket(distance, true, 32, 128, &step),
            16 + relative_position_bucket(-distance, true, 32, 128, &step)
        );
        assert_eq!(
            relative_position_bucket(distance, false, 32, 128, &step),
            relative_position_bucket(0, false, 32, 128, &step)
        );
    }
}

fn wave(shape: &[usize], pace: f32) -> Tensor<f32> {
    let n: usize = shape.iter().product();
    Tensor::from_vec((0..n).map(|i| (i as f32 * pace).sin()).collect(), shape)
}

fn assert_close(a: &Tensor<f32>, b: &Tensor<f32>) {
    assert_eq!(a.shape().as_slice(), b.shape().as_slice());
    for (x, y) in a.data().iter().zip(b.data()) {
        assert!((x - y).abs() < 1e-5, "{x} {y}");
    }
}

#[test]
fn attention_by_query_is_attention_with_a_mask() {
    let (q, k, v) = (wave(&[3, 4], 0.7), wave(&[3, 4], 1.3), wave(&[3, 4], 2.1));
    let bias = wave(&[2, 3, 3], 0.9);
    let factor = score_factor(2);
    for causal in [false, true] {
        for bias in [None, Some(&bias)] {
            let out = multi_head_attention_with_bias(&q, &k, &v, 2, bias, causal, factor, &softmax);
            assert_close(&out, &attend(&q, &k, &v, 2, bias, causal));
        }
    }
    let out = causal_multi_head_attention_from_qkv(&q, &k, &v, 2, factor, &softmax);
    assert_close(&out, &attend(&q, &k, &v, 2, None, true));
    let (k, v) = (wave(&[5, 4], 1.3), wave(&[5, 4], 2.1));
    let out = cross_attention_from_qkv(&q, &k, &v, 2, factor, &softmax);
    assert_close(&out, &attend(&q, &k, &v, 2, None, false));
}

#[test]
fn logits_of_more_rows_than_the_vocabulary_are_cut_from_the_last_row() {
    let mut model = build_tiny_gpt2();
    let h = model.config.hidden_size;
    model.ln_f_w = Tensor::from_vec(vec![0.0; h], &[h]);
    model.ln_f_b = Tensor::from_vec(vec![1.0; h], &[h]);
    model.lm_head = Tensor::from_vec((0..32 * h).map(|i| (i / h) as f32).collect(), &[32, h]);
    model.config.vocab_size = 30;
    assert!(model.is_consistent());
    let all = model.logits(&[3, 4, 5], &decoder());
    assert_eq!(all.shape().as_slice(), &[3, 32]);
    let last = model.next_token_logits(&[3, 4, 5], &decoder());
    assert_eq!(last.data(), &all.data()[64..94]);
    assert_eq!(last.data()[29], 29.0 * h as f32);
    assert_eq!(model.generate_greedy(&[3, 4], 2, &decoder()), vec![3, 4, 29, 29]);

    let mut model = tiny_t5(true);
    model.config.vocab_size = 5;
    model.decoder_final_ln = filled(&[4], 1.0);
    model.lm_head = Tensor::from_vec((0..24).map(|i| (i / 4) as f32).collect(), &[6, 4]);
    assert!(model.is_consistent());
    assert_eq!(model.generate_greedy(&[1, 2], 3, &t5_kernels()), vec![4, 4, 4]);
}

#[test]
fn gpt2_generation_ends_where_the_model_cannot_run() {
    let mut model = build_tiny_gpt2();
    assert_eq!(
        model.try_generate_greedy(&[1, 2], 3, &decoder()),
        Some(vec![1, 2, 31, 31, 31])
    );
    assert_eq!(model.try_generate_greedy(&[], 1, &decoder()), None);
    assert_eq!(model.try_generate_greedy(&[], 0, &decoder()), Some(vec![]));
    assert_eq!(model.try_generate_greedy(&[32], 1, &decoder()), None);
    // There are positions for sixteen tokens.
    model.config.max_position_embeddings = 20;
    assert_eq!(model.try_generate_greedy(&[1; 15], 2, &decoder()).map(|ids| ids.len()), Some(17));
    assert_eq!(model.try_generate_greedy(&[1; 15], 3, &decoder()), None);
    // The end token comes first.
    model.eos_token_id = Some(31);
    assert_eq!(model.try_generate_greedy(&[1; 15], 3, &decoder()).map(|ids| ids.len()), Some(16));
    // The vocabulary has more tokens than embeddings.
    let mut model = build_tiny_gpt2();
    model.wte = ones(&[31, model.config.hidden_size]);
    assert_eq!(model.try_generate_greedy(&[1], 1, &decoder()), Some(vec![1, 31]));
    assert_eq!(model.try_generate_greedy(&[1], 2, &decoder()), None);
}

#[test]
fn short_bias_tables_serve_the_buckets_that_come_up() {
    let mut model = tiny_t5(true);
    model.encoder_layers[0].self_attn.rel_bias = Some(filled(&[1, 2], 0.5));
    model.decoder_layers[0].self_attn.rel_bias = Some(filled(&[1, 2], 0.5));
    assert!(model.is_consistent());
    // A position is in the first bucket to itself.
    assert!(model.try_encode(&[1], &t5_kernels()).is_some());
    assert!(model.try_encode(&[1, 2], &t5_kernels()).is_none());
    assert_eq!(model.try_generate_greedy(&[1], 1, &t5_kernels()), Some(vec![5]));
    assert_eq!(model.try_generate_greedy(&[1], 2, &t5_kernels()), None);
    assert_eq!(model.try_generate_greedy(&[1, 2], 1, &t5_kernels()), None);
    // The end token comes before the bucket that is missing.
    model.eos_token_id = 5;
    assert_eq!(model.try_generate_greedy(&[1], 9, &t5_kernels()), Some(vec![5]));

    let hidden = model.encode(&[1], &t5_kernels());
    assert!(model.try_decode_step(&[0], &hidden, &t5_kernels()).is_some());
    assert!(model.try_decode_step(&[0, 5], &hidden, &t5_kernels()).is_none());

    let table = filled(&[2, 2], 0.5);
    let bias = try_compute_relative_bias(&table, 2, 2, false, 4, 8, &step).unwrap();
    assert_eq!(bias.shape().as_slice(), &[2, 2, 2]);
    assert_eq!(bias.data(), compute_relative_bias(&table, 2, 2, false, 4, 8, &step).data());
    assert!(try_compute_relative_bias(&table, 3, 3, false, 4, 8, &step).is_none());
}

#[test]
fn t5_runs_on_ids_with_embeddings() {
    let model = tiny_t5(false);
    assert!(model.try_encode(&[6], &t5_kernels()).is_none());
    let hidden = model.try_encode(&[1, 2, 3], &t5_kernels()).unwrap();
    assert_eq!(hidden.data(), model.encode(&[1, 2, 3], &t5_kernels()).data());
    assert!(model.try_decode_step(&[6], &hidden, &t5_kernels()).is_none());
    let logits = model.try_decode_step(&[0, 1], &hidden, &t5_kernels()).unwrap();
    assert_eq!(logits.data(), model.decode_step(&[0, 1], &hidden, &t5_kernels()).data());
    // There must be something to decode from, where something is decoded.
    assert_eq!(model.try_generate_greedy(&[], 1, &t5_kernels()), None);
    assert_eq!(model.try_generate_greedy(&[], 0, &t5_kernels()), Some(vec![]));
    let narrow = filled(&[2, 3], 1.0);
    assert!(model.try_decode_step(&[0], &narrow, &t5_kernels()).is_none());
}

#[test]
fn buckets_are_in_range_and_symmetric() {
    for buckets in [1usize, 2, 5, 32] {
        for p in 0..300i32 {
            let one_way = |p| relative_position_bucket(p, false, buckets, 128, &step);
            let both = |p| relative_position_bucket(p, true, buckets, 128, &step);
            assert_eq!(one_way(p), 0);
            assert!(one_way(-p) < buckets);
            assert!(both(p) < buckets && both(-p) < buckets);
            if p > 0 {
                assert_eq!(both(p), buckets / 2 + both(-p));
            }
        }
    }
}
