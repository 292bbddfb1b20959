use wasmicro::ops::activations::{
    erf_approx, gelu_erf, gelu_tanh, relu, silu, ErfConstants, TanhConstants,
};
use wasmicro::ops::attention::queries::{
    causal_multi_head_attention_from_qkv, cross_attention_from_qkv, multi_head_attention_with_bias,
};
use wasmicro::ops::attention::{
    extract_head, mean_pool, multi_head_attention, multi_head_attention_from_qkv, write_head_back,
};
use wasmicro::ops::elementwise::{add_bias, scale};
use wasmicro::ops::embedding::embedding;
use wasmicro::ops::layernorm::{layer_norm, layer_norm_row, layer_norm_rows};
use wasmicro::ops::linear::linear;
use wasmicro::ops::matmul::{matmul, matmul_t_b};
use wasmicro::ops::quantized::{linear_i8, linear_q4, linear_u8};
use wasmicro::ops::rms_norm::{rms_norm, rms_norm_row, rms_norm_rows};
use wasmicro::ops::rows::map_rows;
use wasmicro::ops::softmax::{softmax_last_dim, softmax_row, softmax_rows};
use wasmicro::quant::{QuantizedTensorI8, QuantizedTensorQ4, QuantizedTensorU8};
use wasmicro::tensor::Tensor;

fn exp(v: f32) -> f32 {
    v.exp()
}

fn reciprocal(v: f32) -> f32 {
    1.0 / v
}

fn number(n: usize) -> f32 {
    n as f32
}

fn inv_sqrt(v: f32) -> f32 {
    1.0 / v.sqrt()
}

fn inv_count(n: usize) -> f32 {
    1.0 / n as f32
}

fn softmax(row: &[f32]) -> Vec<f32> {
    softmax_row(row, f32::NEG_INFINITY, &exp, &reciprocal)
}

fn erf_f32(v: f32) -> f32 {
    let coefficients = [
        1.061_405_4f32,
        -1.453_152_1,
        1.421_413_8,
        -0.284_496_72,
        0.254_829_6,
    ];
    let constants = ErfConstants { one: 1.0f32, p: 0.327_591_1, coefficients: &coefficients };
    erf_approx(v, &constants, &exp, &|x: f32| x.abs())
}

fn tanh(v: f32) -> f32 {
    v.tanh()
}

fn tanh_constants() -> TanhConstants<f32> {
    TanhConstants {
        half: 0.5,
        one: 1.0,
        scale: (2.0 / std::f32::consts::PI).sqrt(),
        cubic: 0.044715,
    }
}

fn approx_eq(a: f32, b: f32, eps: f32) -> bool {
    (a - b).abs() < eps
}

fn assert_close(actual: &[f32], expected: &[f32]) {
    assert_eq!(actual.len(), expected.len());
    for (a, e) in actual.iter().zip(expected) {
        assert!((a - e).abs() < 1e-5, "actual {a}, expected {e}");
    }
}

#[test]
fn matmul_2x2() {
    // [[1, 2],     [[5, 6],     [[19, 22],
    //  [3, 4]]  @   [7, 8]]  =   [43, 50]]
    let a = Tensor::from_vec(vec![1.0, 2.0, 3.0, 4.0], &[2, 2]);
    let b = Tensor::from_vec(vec![5.0, 6.0, 7.0, 8.0], &[2, 2]);
    let c = matmul(&a, &b);
    assert_eq!(c.shape().as_slice(), &[2, 2]);
    assert_eq!(c.data(), &[19.0, 22.0, 43.0, 50.0]);
}

#[test]
fn matmul_rect() {
    let a = Tensor::from_vec(vec![1.0, 2.0, 3.0], &[1, 3]);
    let b = Tensor::from_vec(vec![1.0, 2.0, 3.0], &[3, 1]);
    let c = matmul(&a, &b);
    assert_eq!(c.shape().as_slice(), &[1, 1]);
    assert_eq!(c.data(), &[14.0]);
}

#[test]
fn matmul_t_b_matches_explicit_transpose() {
    // a @ b.T  where a: [2, 3], b: [4, 3].
    let a = Tensor::from_vec(vec![1., 2., 3., 4., 5., 6.], &[2, 3]);
    let b = Tensor::from_vec(
        vec![
            1., 0., 0., // row 0
            0., 1., 0., // row 1
            0., 0., 1., // row 2
            1., 1., 1., // row 3
        ],
        &[4, 3],
    );
    let c = matmul_t_b(&a, &b);
    assert_eq!(c.shape().as_slice(), &[2, 4]);
    assert_eq!(c.data(), &[1.0, 2.0, 3.0, 6.0, 4.0, 5.0, 6.0, 15.0]);
}

/// Exercises kernel paths with sizes that are not multiples of 4 to make
/// sure the tail loops match the vector body in both SIMD and scalar
/// builds.
#[test]
fn matmul_handles_non_multiple_of_4_dims() {
    // a: [3, 5], b: [5, 7]. None of 3, 5, 7 are multiples of 4.
    let m = 3usize;
    let k = 5usize;
    let n = 7usize;
    let a: Vec<f32> = (0..m * k).map(|i| 0.1 + i as f32 * 0.01).collect();
    let b: Vec<f32> = (0..k * n).map(|i| -0.2 + i as f32 * 0.013).collect();

    let mut expected = vec![0.0f32; m * n];
    for i in 0..m {
        for kk in 0..k {
            for j in 0..n {
                expected[i * n + j] += a[i * k + kk] * b[kk * n + j];
            }
        }
    }

    let ta = Tensor::from_vec(a, &[m, k]);
    let tb = Tensor::from_vec(b, &[k, n]);
    let tc = matmul(&ta, &tb);
    for (got, want) in tc.data().iter().zip(expected.iter()) {
        assert!((got - want).abs() < 1e-5, "got {got}, want {want}");
    }
}

#[test]
fn matmul_t_b_handles_non_multiple_of_4_dims() {
    // a: [3, 5], b: [7, 5] -> out [3, 7].
    let m = 3usize;
    let k = 5usize;
    let n = 7usize;
    let a: Vec<f32> = (0..m * k).map(|i| 0.05 + i as f32 * 0.011).collect();
    let b: Vec<f32> = (0..n * k).map(|i| -0.3 + i as f32 * 0.017).collect();

    let mut expected = vec![0.0f32; m * n];
    for i in 0..m {
        for j in 0..n {
            let mut acc = 0.0f32;
            for kk in 0..k {
                acc += a[i * k + kk] * b[j * k + kk];
            }
            expected[i * n + j] = acc;
        }
    }

    let ta = Tensor::from_vec(a, &[m, k]);
    let tb = Tensor::from_vec(b, &[n, k]);
    let tc = matmul_t_b(&ta, &tb);
    for (got, want) in tc.data().iter().zip(expected.iter()) {
        assert!((got - want).abs() < 1e-5, "got {got}, want {want}");
    }
}

#[test]
fn add_basic() {
    let a = Tensor::from_vec(vec![1., 2., 3., 4.], &[2, 2]);
    let b = Tensor::from_vec(vec![10., 20., 30., 40.], &[2, 2]);
    let c = wasmicro::ops::elementwise::add(&a, &b);
    assert_eq!(c.data(), &[11., 22., 33., 44.]);
}

#[test]
fn add_bias_broadcasts_last_dim() {
    // x = [[1, 2, 3], [4, 5, 6]], bias = [10, 20, 30]
    let x = Tensor::from_vec(vec![1., 2., 3., 4., 5., 6.], &[2, 3]);
    let b = Tensor::from_vec(vec![10., 20., 30.], &[3]);
    let y = add_bias(&x, &b);
    assert_eq!(y.shape().as_slice(), &[2, 3]);
    assert_eq!(y.data(), &[11., 22., 33., 14., 25., 36.]);
}

#[test]
fn scale_basic() {
    let a = Tensor::from_vec(vec![1., -2., 3.], &[3]);
    let b = scale(&a, 0.5);
    assert_eq!(b.data(), &[0.5, -1.0, 1.5]);
}

#[test]
fn embedding_picks_correct_rows() {
    // weight = [[1, 2], [3, 4], [5, 6]] (vocab=3, embed=2)
    let w = Tensor::from_vec(vec![1., 2., 3., 4., 5., 6.], &[3, 2]);
    let ids = [2u32, 0, 1, 1];
    let out = embedding(&ids, &w);
    assert_eq!(out.shape().as_slice(), &[4, 2]);
    assert_eq!(out.data(), &[5., 6., 1., 2., 3., 4., 3., 4.]);
}

#[test]
fn linear_with_bias() {
    // x: [1, 2] = [[1, 2]]
    // W: [3, 2] = [[1, 0], [0, 1], [1, 1]]  (out=3, in=2)
    // b: [3]   = [10, 20, 30]
    // expected y = x @ W^T + b
    //   = [1*1 + 2*0, 1*0 + 2*1, 1*1 + 2*1] + [10, 20, 30]
    //   = [1, 2, 3] + [10, 20, 30] = [11, 22, 33]
    let x = Tensor::from_vec(vec![1.0, 2.0], &[1, 2]);
    let w = Tensor::from_vec(vec![1., 0., 0., 1., 1., 1.], &[3, 2]);
    let b = Tensor::from_vec(vec![10., 20., 30.], &[3]);
    let y = linear(&x, &w, Some(&b));
    assert_eq!(y.shape().as_slice(), &[1, 3]);
    assert_eq!(y.data(), &[11.0, 22.0, 33.0]);
}

#[test]
fn linear_without_bias() {
    let x = Tensor::from_vec(vec![1.0, 2.0], &[1, 2]);
    let w = Tensor::from_vec(vec![1., 0., 0., 1.], &[2, 2]);
    let y = linear(&x, &w, None);
    assert_eq!(y.data(), &[1.0, 2.0]);
}

#[test]
fn extract_then_write_back_is_identity() {
    // hidden = 4, num_heads = 2 -> head_dim = 2
    // Build a [3, 4] tensor with distinct values per cell.
    let x = Tensor::from_vec((0..12).map(|v| v as f32).collect(), &[3, 4]);
    let mut reconstructed = vec![0.0f32; 12];
    for h in 0..2 {
        let head = extract_head(&x, h, 2);
        write_head_back(&mut reconstructed, &head, h, 2);
    }
    assert_eq!(reconstructed, x.data());
}

#[test]
fn attention_output_shape_matches_input() {
    // hidden = 8, num_heads = 2, seq_len = 3
    let seq_len = 3;
    let hidden = 8;
    let x = Tensor::from_vec(vec![0.1f32; seq_len * hidden], &[seq_len, hidden]);
    // Identity-ish projections.
    let identity = identity_matrix(hidden);
    let zero_bias = Tensor::from_vec(vec![0.0; hidden], &[hidden]);
    let y = multi_head_attention(
        &x,
        &identity,
        Some(&zero_bias),
        &identity,
        Some(&zero_bias),
        &identity,
        Some(&zero_bias),
        &identity,
        Some(&zero_bias),
        2,
        1.0 / (hidden as f32 / 2.0).sqrt(),
        &softmax,
    );
    assert_eq!(y.shape().as_slice(), &[seq_len, hidden]);
}

#[test]
fn mean_pool_basic() {
    let x = Tensor::from_vec(vec![1., 2., 3., 4., 5., 6.], &[3, 2]);
    let y = mean_pool(&x, None, &inv_count);
    // Mean per column: (1+3+5)/3 = 3, (2+4+6)/3 = 4
    assert_eq!(y.shape().as_slice(), &[2]);
    assert_eq!(y.data(), &[3.0, 4.0]);
}

#[test]
fn mean_pool_respects_mask() {
    let x = Tensor::from_vec(vec![1., 2., 99., 99., 5., 6.], &[3, 2]);
    let mask = [1u32, 0, 1];
    let y = mean_pool(&x, Some(&mask), &inv_count);
    // Only rows 0 and 2 contribute: (1+5)/2 = 3, (2+6)/2 = 4
    assert_eq!(y.data(), &[3.0, 4.0]);
}

fn identity_matrix(n: usize) -> Tensor<f32> {
    let mut data = vec![0.0f32; n * n];
    for i in 0..n {
        data[i * n + i] = 1.0;
    }
    Tensor::from_vec(data, &[n, n])
}

#[test]
fn layer_norm_zero_mean_unit_variance() {
    let x = Tensor::from_vec(vec![1.0, 2.0, 3.0, 4.0], &[1, 4]);
    let gamma = Tensor::from_vec(vec![1.0; 4], &[4]);
    let beta = Tensor::from_vec(vec![0.0; 4], &[4]);
    let y = layer_norm(&x, &gamma, &beta, 1e-5f32, &number, &inv_sqrt);

    let mean: f32 = y.data().iter().sum::<f32>() / 4.0;
    assert!(approx_eq(mean, 0.0, 1e-5));

    let var: f32 = y.data().iter().map(|&v| v * v).sum::<f32>() / 4.0;
    assert!(approx_eq(var, 1.0, 1e-3));
}

#[test]
fn layer_norm_scale_and_shift() {
    let x = Tensor::from_vec(vec![1.0, 2.0, 3.0, 4.0], &[1, 4]);
    let gamma = Tensor::from_vec(vec![2.0; 4], &[4]);
    let beta = Tensor::from_vec(vec![10.0; 4], &[4]);
    let y = layer_norm(&x, &gamma, &beta, 1e-5f32, &number, &inv_sqrt);

    // Mean should be 10 (the beta), since gamma * normalized has mean 0.
    let mean: f32 = y.data().iter().sum::<f32>() / 4.0;
    assert!(approx_eq(mean, 10.0, 1e-4));
}

#[test]
fn rms_norm_unit_weight() {
    // x = [3, 4] → rms = sqrt((9+16)/2) = sqrt(12.5)
    let x = Tensor::from_vec(vec![3.0f32, 4.0], &[1, 2]);
    let w = Tensor::from_vec(vec![1.0f32, 1.0], &[2]);
    let y = rms_norm(&x, &w, 0.0, &number, &inv_sqrt);
    let rms = (12.5f32).sqrt();
    assert!((y.data()[0] - 3.0 / rms).abs() < 1e-5);
    assert!((y.data()[1] - 4.0 / rms).abs() < 1e-5);
}

#[test]
fn rms_norm_scaled_weight() {
    let x = Tensor::from_vec(vec![3.0f32, 4.0], &[1, 2]);
    let w = Tensor::from_vec(vec![2.0f32, 0.5], &[2]);
    let y = rms_norm(&x, &w, 0.0, &number, &inv_sqrt);
    let rms = (12.5f32).sqrt();
    assert!((y.data()[0] - 3.0 / rms * 2.0).abs() < 1e-5);
    assert!((y.data()[1] - 4.0 / rms * 0.5).abs() < 1e-5);
}

#[test]
fn rms_norm_batch() {
    let x = Tensor::from_vec(vec![1.0f32, 2.0, 3.0, 4.0, 5.0, 6.0], &[2, 3]);
    let w = Tensor::from_vec(vec![1.0f32, 1.0, 1.0], &[3]);
    let y = rms_norm(&x, &w, 1e-6, &number, &inv_sqrt);
    assert_eq!(y.shape().as_slice(), &[2, 3]);
    for &v in y.data() {
        assert!(v.is_finite(), "non-finite output: {v}");
    }
}

#[test]
fn rms_norm_eps_prevents_div_by_zero() {
    let x = Tensor::from_vec(vec![0.0f32, 0.0], &[1, 2]);
    let w = Tensor::from_vec(vec![1.0f32, 1.0], &[2]);
    let y = rms_norm(&x, &w, 1e-6, &number, &inv_sqrt);
    for &v in y.data() {
        assert!(v.is_finite());
    }
}

#[test]
fn softmax_sums_to_one() {
    let x = Tensor::from_vec(vec![1.0, 2.0, 3.0, -1.0, 0.0, 1.0], &[2, 3]);
    let y = softmax_last_dim(&x, f32::NEG_INFINITY, &exp, &reciprocal);
    for row in y.data().chunks_exact(3) {
        let s: f32 = row.iter().sum();
        assert!(approx_eq(s, 1.0, 1e-6), "row sum {} != 1", s);
    }
}

#[test]
fn softmax_uniform_for_equal_inputs() {
    let x = Tensor::from_vec(vec![5.0; 4], &[1, 4]);
    let y = softmax_last_dim(&x, f32::NEG_INFINITY, &exp, &reciprocal);
    for &v in y.data() {
        assert!(approx_eq(v, 0.25, 1e-6));
    }
}

#[test]
fn softmax_handles_large_values() {
    // Without the max-subtraction trick, exp(1000) would overflow to inf.
    let x = Tensor::from_vec(vec![1000.0, 1000.0, 1000.0], &[1, 3]);
    let y = softmax_last_dim(&x, f32::NEG_INFINITY, &exp, &reciprocal);
    for &v in y.data() {
        assert!(approx_eq(v, 1.0 / 3.0, 1e-6));
    }
}

#[test]
fn linear_i8_matches_known_values() {
    let x = Tensor::from_vec(vec![3.0, 5.0], &[1, 2]);
    let w = QuantizedTensorI8::from_vec(vec![2, -4, 1, 2], &[2, 2], vec![0.5, 2.0]);
    let b = Tensor::from_vec(vec![1.0, -6.0], &[2]);
    let y = linear_i8(&x, &w, Some(&b));
    assert_eq!(y.shape().as_slice(), &[1, 2]);
    assert_close(y.data(), &[-6.0, 20.0]);
}

#[test]
fn linear_u8_matches_known_values() {
    let x = Tensor::from_vec(vec![3.0, 5.0], &[1, 2]);
    let w =
        QuantizedTensorU8::from_vec(vec![12, 6, 11, 12], &[2, 2], vec![0.5, 2.0], vec![10, 10]);
    let b = Tensor::from_vec(vec![1.0, -6.0], &[2]);
    let y = linear_u8(&x, &w, Some(&b));
    assert_eq!(y.shape().as_slice(), &[1, 2]);
    assert_close(y.data(), &[-6.0, 20.0]);
}

#[test]
fn linear_q4_matches_known_values() {
    let x = Tensor::from_vec(vec![3.0, 5.0], &[1, 2]);
    let w = QuantizedTensorQ4::from_i4_values(&[2, -4, 1, 2], &[2, 2], vec![0.5, 2.0]);
    let b = Tensor::from_vec(vec![1.0, -6.0], &[2]);
    let y = linear_q4(&x, &w, Some(&b));
    assert_eq!(y.shape().as_slice(), &[1, 2]);
    assert_close(y.data(), &[-6.0, 20.0]);
}

#[test]
fn relu_clamps_negatives() {
    let x = Tensor::from_vec(vec![-2.0, -0.5, 0.0, 0.5, 2.0], &[5]);
    let y = relu(&x);
    assert_eq!(y.data(), &[0.0, 0.0, 0.0, 0.5, 2.0]);
}

#[test]
fn silu_at_zero_is_zero() {
    let x = Tensor::from_vec(vec![0.0], &[1]);
    let y = silu(&x, 1.0, &exp);
    assert!(approx_eq(y.data()[0], 0.0, 1e-7));
}

#[test]
fn gelu_tanh_at_zero_is_zero() {
    let x = Tensor::from_vec(vec![0.0], &[1]);
    let y = gelu_tanh(&x, &tanh_constants(), &tanh);
    assert!(approx_eq(y.data()[0], 0.0, 1e-7));
}

#[test]
fn gelu_erf_matches_known_values() {
    // GELU(1.0) ~ 0.84134
    // GELU(-1.0) ~ -0.15866
    let x = Tensor::from_vec(vec![1.0, -1.0], &[2]);
    let y = gelu_erf(&x, 0.5, 1.0, 1.0 / 2.0f32.sqrt(), &erf_f32);
    assert!(approx_eq(y.data()[0], 0.8413_447, 1e-4));
    assert!(approx_eq(y.data()[1], -0.1586_553, 1e-4));
}

#[test]
fn erf_known_values() {
    // erf(0) = 0
    assert!(approx_eq(erf_f32(0.0), 0.0, 1e-6));
    // erf(1) ~ 0.8427
    assert!(approx_eq(erf_f32(1.0), 0.8427_008, 1e-5));
    // erf(-1) ~ -0.8427
    assert!(approx_eq(erf_f32(-1.0), -0.8427_008, 1e-5));
}

// Elements of other types.

#[test]
fn matmul_of_integers_is_exact() {
    let a = Tensor::from_vec(vec![1i64, 2, 3, 4, 5, 6], &[2, 3]);
    let b = Tensor::from_vec(vec![7i64, 8, 9, 10, 11, 12], &[3, 2]);
    let c = matmul(&a, &b);
    assert_eq!(c.data(), &[58, 64, 139, 154]);
    let d = matmul_t_b(&a, &Tensor::from_vec(vec![7i64, 9, 11, 8, 10, 12], &[2, 3]));
    assert_eq!(d.data(), c.data());
}

#[test]
fn matmul_over_no_columns_is_zero() {
    let a: Tensor<i32> = Tensor::zeros(&[2, 0]);
    let b: Tensor<i32> = Tensor::zeros(&[0, 3]);
    let c = matmul(&a, &b);
    assert_eq!(c.shape().as_slice(), &[2, 3]);
    assert_eq!(c.data(), &[0; 6]);
}

#[test]
fn elementwise_operations_on_integers() {
    let a = Tensor::from_vec(vec![5, 7, 9], &[3]);
    let b = Tensor::from_vec(vec![1, 2, 3], &[3]);
    assert_eq!(wasmicro::ops::elementwise::sub(&a, &b).data(), &[4, 5, 6]);
    assert_eq!(wasmicro::ops::elementwise::mul(&a, &b).data(), &[5, 14, 27]);
    assert_eq!(wasmicro::ops::elementwise::map(&a, &|v: i32| v * v).data(), &[25, 49, 81]);
}

// Rows.

#[test]
fn map_rows_keeps_rows_apart() {
    let x = Tensor::from_vec(vec![1, 2, 3, 4, 5, 6], &[3, 2]);
    let y = map_rows(&x, &|row: &[i32]| vec![row[1], row[0]]);
    assert_eq!(y.shape().as_slice(), &[3, 2]);
    assert_eq!(y.data(), &[2, 1, 4, 3, 6, 5]);
}

#[test]
fn softmax_row_exact_values() {
    // With one for every exponential the weights are equal.
    let one = |_v: f32| 1.0f32;
    assert_eq!(softmax_row(&[3.0, -1.0], f32::NEG_INFINITY, &one, &reciprocal), vec![0.5, 0.5]);
    // Without a positive sum everything is zero.
    let none = |_v: f32| 0.0f32;
    assert_eq!(softmax_row(&[3.0, -1.0], f32::NEG_INFINITY, &none, &reciprocal), vec![0.0, 0.0]);
    // What goes into the exponential is the distance to the maximum.
    let same = |v: f32| v;
    assert_eq!(
        softmax_row(&[3.0f32, 5.0], f32::NEG_INFINITY, &|v: f32| 1.0 - v, &same),
        vec![3.0 * 4.0, 1.0 * 4.0]
    );
    assert_eq!(softmax(&[]), Vec::<f32>::new());
}

#[test]
fn softmax_rows_agrees_with_softmax_last_dim() {
    let x = Tensor::from_vec(vec![1.0f32, 2.0, 3.0, -1.0, 0.0, 1.0], &[2, 3]);
    let a = softmax_rows(&x, &softmax);
    let b = softmax_last_dim(&x, f32::NEG_INFINITY, &exp, &reciprocal);
    assert_eq!(a.data(), b.data());
}

#[test]
fn layer_norm_row_exact_values() {
    // Mean 3, variance 4.
    let y = layer_norm_row(&[1.0f32, 5.0], &[1.0, 3.0], &[0.0, 10.0], 0.0, &number, &inv_sqrt);
    assert_eq!(y, vec![-1.0, 13.0]);
    // A variance of zero leaves the offset.
    let y = layer_norm_row(&[2.0f32, 2.0], &[1.0, 1.0], &[4.0, 5.0], 1.0, &number, &inv_sqrt);
    assert_eq!(y, vec![4.0, 5.0]);
}

#[test]
fn layer_norm_rows_agrees_with_layer_norm() {
    let x = Tensor::from_vec(vec![1.0f32, 2.0, 4.0, 8.0], &[2, 2]);
    let g = Tensor::from_vec(vec![1.0f32, 2.0], &[2]);
    let b = Tensor::from_vec(vec![0.5f32, -0.5], &[2]);
    let a = layer_norm(&x, &g, &b, 1e-5, &number, &inv_sqrt);
    let c = layer_norm_rows(&x, &g, &b, 1e-5, &|row: &[f32], g: &[f32], b: &[f32], eps: f32| {
        layer_norm_row(row, g, b, eps, &number, &inv_sqrt)
    });
    assert_eq!(a.data(), c.data());
}

#[test]
fn rms_norm_row_exact_values() {
    // Mean square 25.
    let y = rms_norm_row(&[7.0f32, 1.0], &[1.0, 10.0], 0.0, &number, &|v: f32| 100.0 / v);
    assert_eq!(y, vec![28.0, 40.0]);
}

#[test]
fn rms_norm_rows_agrees_with_rms_norm() {
    let x = Tensor::from_vec(vec![1.0f32, 2.0, 4.0, 8.0], &[2, 2]);
    let w = Tensor::from_vec(vec![1.0f32, 2.0], &[2]);
    let a = rms_norm(&x, &w, 1e-6, &number, &inv_sqrt);
    let c = rms_norm_rows(&x, &w, 1e-6, &|row: &[f32], w: &[f32], eps: f32| {
        rms_norm_row(row, w, eps, &number, &inv_sqrt)
    });
    assert_eq!(a.data(), c.data());
}

// Activations.

#[test]
fn activations_exact_values() {
    let x = Tensor::from_vec(vec![4.0f32, -2.0], &[2]);
    // v / (1 + 1)
    assert_eq!(silu(&x, 1.0, &|_v: f32| 1.0).data(), &[2.0, -1.0]);
    // v / (1 + -v)
    assert_eq!(silu(&x, 1.0, &|v: f32| v).data(), &[4.0 / -3.0, -2.0 / 3.0]);
    // 0.5 * v * (1 + scale * (v + cubic * v^3))
    let constants = TanhConstants { half: 0.5f32, one: 1.0, scale: 2.0, cubic: 0.25 };
    assert_eq!(gelu_tanh(&x, &constants, &|v: f32| v).data(), &[2.0 * 41.0, 7.0]);
    // 0.5 * v * (1 + v * 0.5)
    assert_eq!(gelu_erf(&x, 0.5, 1.0, 0.5, &|v: f32| v).data(), &[6.0, 0.0]);
}

#[test]
fn erf_approx_exact_values() {
    // t = 1 / (1 + 0.5 * 2) = 0.5, polynomial (4 t + 2) t = 2, exponential 0.25.
    let coefficients = [4.0f32, 2.0];
    let constants = ErfConstants { one: 1.0f32, p: 0.5, coefficients: &coefficients };
    let quarter = |v: f32| if v == -4.0 { 0.25f32 } else { 9.0 };
    let abs = |v: f32| v.abs();
    assert_eq!(erf_approx(2.0, &constants, &quarter, &abs), 0.5);
    assert_eq!(erf_approx(-2.0, &constants, &quarter, &abs), -0.5);
}

// Attention.

#[test]
fn attention_of_one_position_gives_its_values() {
    let q = Tensor::from_vec(vec![1.0f32, 2.0, 3.0, 4.0], &[1, 4]);
    let v = Tensor::from_vec(vec![5.0f32, 6.0, 7.0, 8.0], &[1, 4]);
    let y = multi_head_attention_from_qkv(&q, &q, &v, 2, 0.5, &softmax);
    assert_eq!(y.data(), &[5.0, 6.0, 7.0, 8.0]);
}

#[test]
fn attention_mixes_values_with_the_weights_of_the_scores() {
    // One head of size one; weights are the scaled scores themselves.
    let q = Tensor::from_vec(vec![1.0f32, 2.0], &[2, 1]);
    let k = Tensor::from_vec(vec![3.0f32, 4.0], &[2, 1]);
    let v = Tensor::from_vec(vec![10.0f32, 100.0], &[2, 1]);
    let y = multi_head_attention_from_qkv(&q, &k, &v, 1, 2.0, &|row: &[f32]| row.to_vec());
    assert_eq!(y.data(), &[860.0, 1720.0]);
}

#[test]
fn extract_head_takes_the_columns_of_the_head() {
    let x = Tensor::from_vec(vec![1, 2, 3, 4, 5, 6, 7, 8], &[2, 4]);
    let head = extract_head(&x, 1, 2);
    assert_eq!(head.shape().as_slice(), &[2, 2]);
    assert_eq!(head.data(), &[3, 4, 7, 8]);
    let mut out = vec![0; 8];
    write_head_back(&mut out, &head, 1, 2);
    assert_eq!(out, vec![0, 0, 3, 4, 0, 0, 7, 8]);
}

#[test]
fn mean_pool_without_positions_is_zero() {
    let x = Tensor::from_vec(vec![1.0f32, 2.0, 3.0, 4.0], &[2, 2]);
    let y = mean_pool(&x, Some(&[0, 0]), &inv_count);
    assert_eq!(y.data(), &[0.0, 0.0]);
}

#[test]
fn a_full_mask_is_no_mask() {
    let x = Tensor::from_vec(vec![1.0f32, 2.0, 5.0, 8.0], &[2, 2]);
    let a = mean_pool(&x, Some(&[1, 7]), &inv_count);
    let b = mean_pool(&x, None, &inv_count);
    assert_eq!(a.data(), b.data());
    assert_eq!(a.data(), &[3.0, 5.0]);
}

/// Leaves the scores as they are.
fn keep(row: &[i64]) -> Vec<i64> {
    row.to_vec()
}

#[test]
fn attention_by_query_exact() {
    // One head of two columns.
    let q = Tensor::from_vec(vec![1i64, 0, 0, 1, 1, 1], &[3, 2]);
    let k = Tensor::from_vec(vec![1i64, 2, 3, 4, 5, 6], &[3, 2]);
    let v = Tensor::from_vec(vec![1i64, 0, 0, 1, 2, 2], &[3, 2]);
    // Scores: [1, 3, 5], [2, 4, 6], [3, 7, 11].
    let all = cross_attention_from_qkv(&q, &k, &v, 1, 1, &keep);
    assert_eq!(all.data(), &[11, 13, 14, 16, 25, 29]);
    // Only [1], [2, 4] and [3, 7, 11] are left.
    let causal = causal_multi_head_attention_from_qkv(&q, &k, &v, 1, 1, &keep);
    assert_eq!(causal.data(), &[1, 0, 2, 4, 25, 29]);
    let doubled = causal_multi_head_attention_from_qkv(&q, &k, &v, 1, 2, &keep);
    assert_eq!(doubled.data(), &[2, 0, 4, 8, 50, 58]);
    let bias = Tensor::from_vec(vec![10i64, 20, 30, 40, 50, 60, 70, 80, 90], &[1, 3, 3]);
    let biased = multi_head_attention_with_bias(&q, &k, &v, 1, Some(&bias), true, 1, &keep);
    assert_eq!(biased.data(), &[11, 0, 42, 54, 275, 289]);
}

#[test]
fn causal_attention_looks_back_only() {
    let q = Tensor::from_vec(vec![1i64, 2, 3, 4], &[2, 2]);
    let k = Tensor::from_vec(vec![5i64, 6, 7, 8], &[2, 2]);
    let v = Tensor::from_vec(vec![9i64, 1, 2, 3], &[2, 2]);
    let short = causal_multi_head_attention_from_qkv(&q, &k, &v, 2, 1, &keep);
    let longer = |t: &Tensor<i64>| {
        let mut data = t.data().to_vec();
        data.extend([100, 200]);
        Tensor::from_vec(data, &[3, 2])
    };
    let long =
        causal_multi_head_attention_from_qkv(&longer(&q), &longer(&k), &longer(&v), 2, 1, &keep);
    assert_eq!(&long.data()[..4], short.data());
}

#[test]
fn cross_attention_to_another_length() {
    let q = Tensor::from_vec(vec![1i64, 2], &[1, 2]);
    let k = Tensor::from_vec(vec![1i64, 1, 2, 2, 3, 3], &[3, 2]);
    let v = Tensor::from_vec(vec![1i64, 10, 1, 10, 1, 10], &[3, 2]);
    // Two heads of one column each.
    let out = cross_attention_from_qkv(&q, &k, &v, 2, 1, &keep);
    assert_eq!(out.data(), &[6, 120]);
    let none = Tensor::from_vec(Vec::<i64>::new(), &[0, 2]);
    let out = cross_attention_from_qkv(&none, &k, &v, 2, 1, &keep);
    assert_eq!(out.shape().as_slice(), &[0, 2]);
}
