use wasmicro::convert::{
    dtype_name, f32_slice_to_le_bytes, looks_like_bert, parse_args, quantize_safetensors,
    quantized_file_name, should_quantize_bert_linear, CliArgs, QuantMode, Quantizers,
};
use wasmicro::error::Error;
use wasmicro::loader::{Dtype, ModelFile};
use wasmicro::quant::scale::{affine_params, symmetric_scale};
use wasmicro::writer::{json_escape, write_safetensors, OutputTensor};

fn floats(words: &[u32]) -> Vec<f32> {
    words.iter().map(|w| f32::from_bits(*w)).collect()
}

fn scale_of(row: &[u32]) -> u32 {
    symmetric_scale(&floats(row), 1.0, 127.0, &|v: f32| v.abs()).to_bits()
}

fn to_i8(v: u32, scale: u32) -> i8 {
    (f32::from_bits(v) / f32::from_bits(scale)).round().clamp(-127.0, 127.0) as i8
}

fn params_of(row: &[u32]) -> (u32, u8) {
    let round = |v: f32| v.round().clamp(0.0, 255.0) as u8;
    let params =
        affine_params(&floats(row), 1.0, 255.0, f32::NEG_INFINITY, f32::INFINITY, &round);
    (params.0.to_bits(), params.1)
}

fn to_u8(v: u32, scale: u32, zero_point: u8) -> u8 {
    let q = (f32::from_bits(v) / f32::from_bits(scale)).round() + zero_point as f32;
    q.clamp(0.0, 255.0) as u8
}

fn quantizers() -> Quantizers<
    fn(&[u32]) -> u32,
    fn(u32, u32) -> i8,
    fn(&[u32]) -> (u32, u8),
    fn(u32, u32, u8) -> u8,
> {
    Quantizers { scale_of, to_i8, params_of, to_u8 }
}

fn f32_tensor(name: &str, shape: &[usize], values: &[f32]) -> OutputTensor {
    OutputTensor {
        name: name.to_string(),
        dtype: "F32",
        shape: shape.to_vec(),
        data: f32_slice_to_le_bytes(&values.iter().map(|v| v.to_bits()).collect::<Vec<u32>>()),
    }
}

fn sample_model() -> Vec<u8> {
    write_safetensors(&[
        f32_tensor(
            "embeddings.word_embeddings.weight",
            &[2, 2],
            &[0.0, 1.0, 2.0, 3.0],
        ),
        f32_tensor(
            "encoder.layer.0.intermediate.dense.weight",
            &[2, 2],
            &[0.0, 1.0, -2.0, 2.0],
        ),
        f32_tensor("encoder.layer.0.intermediate.dense.bias", &[2], &[0.0, 0.0]),
    ])
}

#[test]
fn quantize_i8_only_changes_bert_linear_weights() {
    let output = quantize_safetensors(&sample_model(), QuantMode::I8, &quantizers()).unwrap();
    let file = ModelFile::parse(&output).unwrap();

    assert_eq!(
        file.get("embeddings.word_embeddings.weight").unwrap().dtype,
        Dtype::F32
    );
    assert_eq!(
        file.get("encoder.layer.0.intermediate.dense.weight")
            .unwrap()
            .dtype,
        Dtype::I8
    );
    assert_eq!(
        file.get("encoder.layer.0.intermediate.dense.weight.scale")
            .unwrap()
            .dtype,
        Dtype::F32
    );
}

#[test]
fn quantize_u8_adds_zero_points() {
    let output = quantize_safetensors(&sample_model(), QuantMode::U8, &quantizers()).unwrap();
    let file = ModelFile::parse(&output).unwrap();

    assert_eq!(
        file.get("encoder.layer.0.intermediate.dense.weight")
            .unwrap()
            .dtype,
        Dtype::U8
    );
    assert_eq!(
        file.get("encoder.layer.0.intermediate.dense.weight.zero_point")
            .unwrap()
            .dtype,
        Dtype::U8
    );
}

#[test]
fn quantized_file_exact_contents() {
    let output = quantize_safetensors(&sample_model(), QuantMode::I8, &quantizers()).unwrap();
    let file = ModelFile::parse(&output).unwrap();
    assert_eq!(
        file.names(),
        vec![
            "embeddings.word_embeddings.weight",
            "encoder.layer.0.intermediate.dense.weight",
            "encoder.layer.0.intermediate.dense.weight.scale",
            "encoder.layer.0.intermediate.dense.bias",
        ]
    );
    let weight = file.get("encoder.layer.0.intermediate.dense.weight").unwrap();
    assert_eq!(weight.shape, &[2, 2]);
    assert_eq!(weight.raw, &[0, 127, 129, 127]);
    let scale = file.get("encoder.layer.0.intermediate.dense.weight.scale").unwrap();
    assert_eq!(scale.shape, &[2]);
    let scale = scale.to_tensor(&f32::from_bits).unwrap();
    assert_eq!(scale.data(), &[1.0 / 127.0, 2.0 / 127.0]);
    // What is not quantized stays as it was.
    let before = sample_model();
    let before = ModelFile::parse(&before).unwrap();
    for name in ["embeddings.word_embeddings.weight", "encoder.layer.0.intermediate.dense.bias"] {
        assert_eq!(file.get(name).unwrap().raw, before.get(name).unwrap().raw);
    }
}

#[test]
fn quantizing_something_else_is_an_error() {
    assert_eq!(
        quantize_safetensors(&[1, 2, 3], QuantMode::U8, &quantizers()).unwrap_err(),
        Error::HeaderTooShort
    );
}

#[test]
fn only_matrices_of_linear_layers_are_quantized() {
    let name = "bert.encoder.layer.3.output.dense.weight";
    assert!(should_quantize_bert_linear(name, Dtype::F32, &[2, 2]));
    assert!(!should_quantize_bert_linear(name, Dtype::F16, &[2, 2]));
    assert!(!should_quantize_bert_linear(name, Dtype::F32, &[4]));
    assert!(!should_quantize_bert_linear("pooler.dense.weight", Dtype::F32, &[2, 2]));
}

#[test]
fn bert_files_are_recognized() {
    let bytes = sample_model();
    assert!(looks_like_bert(&ModelFile::parse(&bytes).unwrap()));
    let other = write_safetensors(&[f32_tensor("wte.weight", &[1], &[0.0])]);
    assert!(!looks_like_bert(&ModelFile::parse(&other).unwrap()));
}

#[test]
fn names_of_modes_and_types() {
    assert_eq!(QuantMode::parse("i8"), Some(QuantMode::I8));
    assert_eq!(QuantMode::parse("u8"), Some(QuantMode::U8));
    assert_eq!(QuantMode::parse("q8"), Some(QuantMode::U8));
    assert_eq!(QuantMode::parse("I8"), None);
    assert_eq!(quantized_file_name(QuantMode::I8), "model.i8.safetensors");
    assert_eq!(quantized_file_name(QuantMode::U8), "model.u8.safetensors");
    assert_eq!(dtype_name(Dtype::Bool), "BOOL");
    assert_eq!(dtype_name(Dtype::BF16), "BF16");
    assert_eq!(f32_slice_to_le_bytes(&[0x01020304]), vec![4, 3, 2, 1]);
}

fn args(list: &[&str]) -> Result<CliArgs, String> {
    parse_args(&list.iter().map(|s| s.to_string()).collect::<Vec<String>>())
}

fn refusal(list: &[&str]) -> String {
    match args(list) {
        Ok(_) => panic!("expected an error"),
        Err(text) => text,
    }
}

#[test]
fn command_lines() {
    let cli = args(&["tool", "model", "out"]).ok().unwrap();
    assert_eq!((cli.model_id.as_str(), cli.output_dir.as_str()), ("model", "out"));
    assert_eq!(cli.quantize, None);
    let cli = args(&["tool", "model", "out", "--quantize", "i8", "--quantize", "q8"]);
    assert_eq!(cli.ok().unwrap().quantize, Some(QuantMode::U8));
    assert_eq!(refusal(&["tool", "model"]), "missing required arguments");
    assert_eq!(refusal(&["tool", "m", "o", "--quantize"]), "--quantize requires i8, u8, or q8");
    assert_eq!(
        refusal(&["tool", "m", "o", "--quantize", "f16"]),
        "--quantize must be one of: i8, u8, q8"
    );
    assert_eq!(refusal(&["tool", "m", "o", "--fast"]), "unknown argument: --fast");
}

#[test]
fn json_strings_are_escaped() {
    assert_eq!(json_escape("a\"b\\c\n\r\t"), "a\\\"b\\\\c\\n\\r\\t");
    assert_eq!(json_escape("\u{1}\u{7f}"), "\\u0001\\u007f");
    assert_eq!(json_escape("h\u{e9}"), "h\u{e9}");
}

#[test]
fn written_files_read_back() {
    let tensors = [
        OutputTensor { name: "b".to_string(), dtype: "U8", shape: vec![2, 1], data: vec![7, 8] },
        OutputTensor { name: "a\"".to_string(), dtype: "BOOL", shape: vec![], data: vec![1] },
        OutputTensor { name: "e".to_string(), dtype: "F32", shape: vec![0], data: vec![] },
    ];
    let bytes = write_safetensors(&tensors);
    let file = ModelFile::parse(&bytes).unwrap();
    assert_eq!(file.names(), vec!["b", "a\"", "e"]);
    assert_eq!(file.get("b").unwrap().raw, &[7, 8]);
    assert_eq!(file.get("b").unwrap().shape, &[2, 1]);
    assert_eq!(file.get("a\"").unwrap().dtype, Dtype::Bool);
    assert_eq!(file.get("a\"").unwrap().raw, &[1]);
    assert_eq!(file.get("e").unwrap().raw.len(), 0);
}

#[test]
fn an_empty_file_is_written_as_an_empty_header() {
    let bytes = write_safetensors(&[]);
    assert_eq!(&bytes[8..10], b"{}");
    assert!(ModelFile::parse(&bytes).unwrap().is_empty());
}

#[test]
fn quantized_files_keep_names_and_shapes() {
    let source = sample_model();
    let output = quantize_safetensors(&source, QuantMode::U8, &quantizers()).unwrap();
    let (before, after) = (ModelFile::parse(&source).unwrap(), ModelFile::parse(&output).unwrap());
    assert_eq!(
        after.names(),
        vec![
            "embeddings.word_embeddings.weight",
            "encoder.layer.0.intermediate.dense.weight",
            "encoder.layer.0.intermediate.dense.weight.scale",
            "encoder.layer.0.intermediate.dense.weight.zero_point",
            "encoder.layer.0.intermediate.dense.bias",
        ]
    );
    for name in before.names() {
        assert_eq!(after.get(name).unwrap().shape, before.get(name).unwrap().shape);
    }
}

#[test]
fn names_beyond_ascii_are_written_and_read() {
    let name = "caf\u{e9}.\u{4e16}\u{1f600}.attention.self.key.weight";
    let source = write_safetensors(&[f32_tensor(name, &[1, 2], &[1.0, -1.0])]);
    assert_eq!(ModelFile::parse(&source).unwrap().names(), vec![name]);
    let output = quantize_safetensors(&source, QuantMode::I8, &quantizers()).unwrap();
    let file = ModelFile::parse(&output).unwrap();
    assert_eq!(file.get(name).unwrap().raw, &[127, 129]);
    assert_eq!(file.get(&format!("{name}.scale")).unwrap().shape, &[1]);
}
