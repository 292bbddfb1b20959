use wasmicro::error::Error;
use wasmicro::loader::ModelFile;
use wasmicro::ops::quantized::{matmul_t_b_i8, matmul_t_b_q4, matmul_t_b_u8};
use wasmicro::quant::scale::{affine_params, symmetric_scale};
use wasmicro::quant::{QuantizedTensorI8, QuantizedTensorQ4, QuantizedTensorU8};
use wasmicro::tensor::Tensor;
use wasmicro::writer::{write_safetensors, OutputTensor};

fn abs(v: f32) -> f32 {
    v.abs()
}

fn to_u8(v: f32) -> u8 {
    v.round().clamp(0.0, 255.0) as u8
}

fn scale_i8(row: &[f32]) -> f32 {
    symmetric_scale(row, 1.0, 127.0, &abs)
}

fn scale_q4(row: &[f32]) -> f32 {
    symmetric_scale(row, 1.0, 7.0, &abs)
}

fn params_u8(row: &[f32]) -> (f32, u8) {
    affine_params(row, 1.0, 255.0, f32::NEG_INFINITY, f32::INFINITY, &to_u8)
}

fn value_i8(v: f32, scale: f32) -> i8 {
    (v / scale).round().clamp(-127.0, 127.0) as i8
}

fn value_q4(v: f32, scale: f32) -> i8 {
    (v / scale).round().clamp(-8.0, 7.0) as i8
}

fn value_u8(v: f32, scale: f32, zero_point: u8) -> u8 {
    ((v / scale).round() + zero_point as f32).clamp(0.0, 255.0) as u8
}

fn assert_close(actual: &[f32], expected: &[f32]) {
    assert_eq!(actual.len(), expected.len());
    for (a, e) in actual.iter().zip(expected) {
        assert!((a - e).abs() < 1e-5, "actual {a}, expected {e}");
    }
}

#[test]
fn i8_dequantizes_per_row() {
    let q = QuantizedTensorI8::from_vec(vec![2, -4, 1, 2], &[2, 2], vec![0.5, 2.0]);
    let deq = q.dequantize();
    assert_close(deq.data(), &[1.0, -2.0, 2.0, 4.0]);
}

#[test]
fn u8_dequantizes_affine_per_row() {
    let q =
        QuantizedTensorU8::from_vec(vec![12, 6, 11, 12], &[2, 2], vec![0.5, 2.0], vec![10, 10]);
    let deq = q.dequantize();
    assert_close(deq.data(), &[1.0, -2.0, 2.0, 4.0]);
}

#[test]
fn q4_packs_and_dequantizes_per_row() {
    let q = QuantizedTensorQ4::from_i4_values(&[2, -4, 1, 2], &[2, 2], vec![0.5, 2.0]);
    assert_eq!(q.data(), &[0xc2, 0x21]);
    assert_eq!(q.get(0), 2);
    assert_eq!(q.get(1), -4);
    let deq = q.dequantize();
    assert_close(deq.data(), &[1.0, -2.0, 2.0, 4.0]);
}

#[test]
fn quantize_i8_round_trips_small_values() {
    let weight = Tensor::from_vec(vec![0.0, 1.0, -1.0, 2.0], &[2, 2]);
    let q = QuantizedTensorI8::quantize_per_row(&weight, &scale_i8, &value_i8);
    assert_eq!(q.shape().as_slice(), &[2, 2]);
    assert_eq!(q.scales().len(), 2);
    let deq = q.dequantize();
    assert!((deq.data()[1] - 1.0).abs() < 0.01);
    assert!((deq.data()[2] + 1.0).abs() < 0.02);
}

#[test]
fn symmetric_scale_exact_values() {
    assert_eq!(symmetric_scale(&[3.0f32, -8.0, 5.0], 1.0, 4.0, &abs), 2.0);
    // A row of zeros, and an empty one, has scale one.
    assert_eq!(symmetric_scale(&[0.0f32, -0.0], 1.0, 4.0, &abs), 1.0);
    assert_eq!(symmetric_scale(&[], 1.0f32, 4.0, &abs), 1.0);
}

#[test]
fn affine_params_exact_values() {
    // Range 8 in 4 steps of 2; the least element lies 3 steps below zero.
    let row = [-6.0f32, 2.0, 1.0];
    let params = affine_params(&row, 1.0, 4.0, f32::NEG_INFINITY, f32::INFINITY, &to_u8);
    assert_eq!(params, (2.0, 3));
    // Equal elements have scale one.
    let flat = affine_params(&[-5.0f32; 3], 1.0, 4.0, f32::NEG_INFINITY, f32::INFINITY, &to_u8);
    assert_eq!(flat, (1.0, 5));
}

#[test]
fn quantize_i8_exact_values() {
    let weight = Tensor::from_vec(vec![127.0f32, -63.0, 0.0, 0.0], &[2, 2]);
    let q = QuantizedTensorI8::quantize_per_row(&weight, &scale_i8, &value_i8);
    assert_eq!(q.data(), &[127, -63, 0, 0]);
    assert_eq!(q.scales(), &[1.0, 1.0]);
}

#[test]
fn quantize_u8_exact_values() {
    let weight = Tensor::from_vec(vec![-55.0f32, 200.0, 0.0, 7.0, 7.0, 7.0], &[2, 3]);
    let q = QuantizedTensorU8::quantize_per_row(&weight, &params_u8, &value_u8);
    assert_eq!(q.scales(), &[1.0, 1.0]);
    assert_eq!(q.zero_points(), &[55, 0]);
    assert_eq!(q.data(), &[0, 255, 55, 7, 7, 7]);
    assert_eq!(q.dequantize().data(), weight.data());
}

#[test]
fn quantize_q4_exact_values() {
    let weight = Tensor::from_vec(vec![7.0f32, -7.0, 3.0], &[1, 3]);
    let q = QuantizedTensorQ4::quantize_per_row(&weight, &scale_q4, &value_q4);
    assert_eq!(q.len(), 3);
    assert!(!q.is_empty());
    assert_eq!(q.data(), &[0x97, 0x03]);
    assert_eq!(q.scales(), &[1.0]);
    assert_eq!(q.shape().as_slice(), &[1, 3]);
    assert_eq!(q.dequantize().data(), weight.data());
}

#[test]
fn q4_gives_back_every_value() {
    let values: Vec<i8> = (-8..8).collect();
    let q = QuantizedTensorQ4::from_i4_values(&values, &[4, 4], vec![1.0f32]);
    for (i, v) in values.iter().enumerate() {
        assert_eq!(q.get(i), *v);
    }
    let same = QuantizedTensorQ4::from_packed(q.data().to_vec(), 16, &[4, 4], vec![1.0f32]);
    assert_eq!(same.get(3), -5);
}

#[test]
fn one_scale_applies_to_every_row() {
    let q = QuantizedTensorI8::from_vec(vec![1, 2, 3, 4], &[2, 2], vec![2.0f32]);
    assert_eq!(q.dequantize().data(), &[2.0, 4.0, 6.0, 8.0]);
    let copy = q.clone();
    assert_eq!(copy.data(), q.data());
}

#[test]
fn quantized_products_exact_values() {
    let x = Tensor::from_vec(vec![1.0f32, 2.0, 3.0, 4.0], &[2, 2]);
    let i = QuantizedTensorI8::from_vec(vec![1, -1, 2, 0], &[2, 2], vec![1.0f32, 0.5]);
    assert_eq!(matmul_t_b_i8(&x, &i).data(), &[-1.0, 1.0, -1.0, 3.0]);
    let u = QuantizedTensorU8::from_vec(vec![1, 3, 2, 2], &[2, 2], vec![2.0f32], vec![2]);
    assert_eq!(matmul_t_b_u8(&x, &u).data(), &[2.0, 0.0, 2.0, 0.0]);
    let q = QuantizedTensorQ4::from_i4_values(&[1, -1, 2, 0], &[2, 2], vec![1.0f32, 0.5]);
    assert_eq!(matmul_t_b_q4(&x, &q).data(), &[-1.0, 1.0, -1.0, 3.0]);
}

fn tensor(name: &str, dtype: &'static str, shape: &[usize], data: &[u8]) -> OutputTensor {
    OutputTensor { name: name.to_string(), dtype, shape: shape.to_vec(), data: data.to_vec() }
}

#[test]
fn quantized_tensors_load_from_a_file() {
    let scales: Vec<u8> = [0.5f32, 2.0].iter().flat_map(|v| v.to_le_bytes()).collect();
    let bytes = write_safetensors(&[
        tensor("w", "I8", &[2, 2], &[2, 252, 1, 2]),
        tensor("u", "U8", &[2, 2], &[12, 6, 11, 12]),
        tensor("s", "F32", &[2], &scales),
        tensor("z", "U8", &[2], &[10, 10]),
    ]);
    let file = ModelFile::parse(&bytes).unwrap();
    let q = QuantizedTensorI8::from_safetensors(&file, "w", "s", &f32::from_bits).unwrap();
    assert_eq!(q.data(), &[2, -4, 1, 2]);
    assert_eq!(q.scales(), &[0.5, 2.0]);
    let u = QuantizedTensorU8::from_safetensors(&file, "u", "s", "z", &f32::from_bits).unwrap();
    assert_eq!(u.data(), &[12, 6, 11, 12]);
    assert_eq!(u.zero_points(), &[10, 10]);
    assert_eq!(u.dequantize().data(), q.dequantize().data());

    let missing = QuantizedTensorI8::from_safetensors(&file, "x", "s", &f32::from_bits);
    assert!(matches!(missing, Err(Error::TensorNotFound)));
    let wrong = QuantizedTensorI8::from_safetensors(&file, "u", "s", &f32::from_bits);
    assert!(matches!(wrong, Err(Error::DtypeMismatch)));
}
