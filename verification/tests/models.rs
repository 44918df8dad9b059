use unsloth_rs::error::TensorError;
use unsloth_rs::kernels::fast_lora::LoraAdapter;
use unsloth_rs::models::llama::{LlamaAttention, LlamaDecoderLayer, LlamaModel};
use unsloth_rs::scalar::Scalar;
use unsloth_rs::tensor::Tensor;

#[derive(Clone, Copy, Debug, PartialEq)]
struct F(f32);

impl Scalar for F {
    fn from_usize(n: usize) -> Self {
        F(n as f32)
    }
    fn neg_infinity() -> Self {
        F(f32::NEG_INFINITY)
    }
    fn add(self, rhs: Self) -> Self {
        F(self.0 + rhs.0)
    }
    fn sub(self, rhs: Self) -> Self {
        F(self.0 - rhs.0)
    }
    fn mul(self, rhs: Self) -> Self {
        F(self.0 * rhs.0)
    }
    fn div(self, rhs: Self) -> Self {
        F(self.0 / rhs.0)
    }
    fn neg(self) -> Self {
        F(-self.0)
    }
    fn max(self, rhs: Self) -> Self {
        F(self.0.max(rhs.0))
    }
    fn exp(self) -> Self {
        F(self.0.exp())
    }
    fn sqrt(self) -> Self {
        F(self.0.sqrt())
    }
    fn sin(self) -> Self {
        F(self.0.sin())
    }
    fn cos(self) -> Self {
        F(self.0.cos())
    }
    fn powf(self, exponent: Self) -> Self {
        F(self.0.powf(exponent.0))
    }
}

fn tensor(shape: &[usize], values: &[f32]) -> Tensor<F> {
    Tensor::new(shape.to_vec(), values.iter().map(|&v| F(v)).collect()).unwrap()
}

fn values(t: &Tensor<F>) -> Vec<f32> {
    t.data().iter().map(|v| v.0).collect()
}

fn max_abs_diff(got: &[f32], expected: &[f32]) -> f32 {
    assert_eq!(got.len(), expected.len());
    got.iter().zip(expected.iter()).fold(0.0, |max, (a, b)| (a - b).abs().max(max))
}

fn zeros(shape: &[usize]) -> Tensor<F> {
    Tensor::zeros(shape.to_vec()).unwrap()
}

fn pattern(shape: &[usize], seed: usize) -> Tensor<F> {
    let count: usize = shape.iter().product();
    let data: Vec<f32> =
        (0..count).map(|i| (((i * 37 + seed * 101) % 23) as f32 - 11.0) * 0.125).collect();
    tensor(shape, &data)
}

fn matmul(a: &[f32], b: &[f32], m: usize, k: usize, n: usize) -> Vec<f32> {
    let mut out = vec![0.0f32; m * n];
    for i in 0..m {
        for j in 0..n {
            let mut acc = 0.0f32;
            for c in 0..k {
                acc += a[i * k + c] * b[c * n + j];
            }
            out[i * n + j] = acc;
        }
    }
    out
}

fn rope_rows(x: &mut [f32], width: usize, rotary_dim: usize) {
    let rows = x.len() / width;
    for t in 0..rows {
        for i in 0..rotary_dim / 2 {
            let inv = 1.0 / 10000.0f32.powf((2 * i) as f32 / rotary_dim as f32);
            let angle = t as f32 * inv;
            let (sin, cos) = (angle.sin(), angle.cos());
            let x1 = x[t * width + 2 * i];
            let x2 = x[t * width + 2 * i + 1];
            x[t * width + 2 * i] = x1 * cos - x2 * sin;
            x[t * width + 2 * i + 1] = x2 * cos + x1 * sin;
        }
    }
}

struct Dims {
    seq: usize,
    hidden: usize,
    n_heads: usize,
    n_kv_heads: usize,
    head_dim: usize,
    out: usize,
}

type Factors = Option<(Vec<f32>, Vec<f32>)>;

fn adapter(rows: usize, rank: usize, cols: usize, seed: usize) -> LoraAdapter<F> {
    LoraAdapter { lora_a: pattern(&[rows, rank], seed), lora_b: pattern(&[rank, cols], seed + 1) }
}

fn factors(a: &Option<LoraAdapter<F>>) -> Factors {
    a.as_ref().map(|ad| (values(&ad.lora_a), values(&ad.lora_b)))
}

fn project(x: &[f32], w: &[f32], adapter: &Factors, m: usize, k: usize, n: usize) -> Vec<f32> {
    let main = matmul(x, w, m, k, n);
    match adapter {
        Some((a, b)) => {
            let rank = a.len() / k;
            let down = matmul(x, a, m, k, rank);
            let share = matmul(&down, b, m, rank, n);
            main.iter().zip(&share).map(|(u, v)| u + v).collect()
        }
        None => main,
    }
}

fn attention_by_hand(d: &Dims, x: &[f32], wq: &[f32], wk: &[f32], wv: &[f32], wo: &[f32]) -> Vec<f32> {
    attention_with_adapters_by_hand(d, x, [wq, wk, wv, wo], [&None, &None, &None])
}

fn attention_with_adapters_by_hand(
    d: &Dims,
    x: &[f32],
    weights: [&[f32]; 4],
    adapters: [&Factors; 3],
) -> Vec<f32> {
    let [wq, wk, wv, wo] = weights;
    let qw = d.n_heads * d.head_dim;
    let kw = d.n_kv_heads * d.head_dim;
    let mut q = project(x, wq, adapters[0], d.seq, d.hidden, qw);
    let mut k = project(x, wk, adapters[1], d.seq, d.hidden, kw);
    let v = project(x, wv, adapters[2], d.seq, d.hidden, kw);
    rope_rows(&mut q, qw, d.head_dim);
    rope_rows(&mut k, kw, d.head_dim);
    let n_rep = d.n_heads / d.n_kv_heads;
    let mut merged = vec![0.0f32; d.seq * qw];
    for h in 0..d.n_heads {
        let g = h / n_rep;
        for i in 0..d.seq {
            let mut scores = vec![0.0f32; d.seq];
            for j in 0..d.seq {
                let mut acc = 0.0f32;
                for c in 0..d.head_dim {
                    acc += q[i * qw + h * d.head_dim + c] * k[j * kw + g * d.head_dim + c];
                }
                scores[j] = acc / (d.head_dim as f32).sqrt();
            }
            let max = scores.iter().fold(f32::NEG_INFINITY, |a, &b| a.max(b));
            let exps: Vec<f32> = scores.iter().map(|s| (s - max).exp()).collect();
            let sum: f32 = exps.iter().sum();
            for c in 0..d.head_dim {
                let mut acc = 0.0f32;
                for j in 0..d.seq {
                    acc += exps[j] / sum * v[j * kw + g * d.head_dim + c];
                }
                merged[i * qw + h * d.head_dim + c] = acc;
            }
        }
    }
    matmul(&merged, wo, d.seq, qw, d.out)
}

fn attention(d: &Dims, seeds: [usize; 4]) -> LlamaAttention<F> {
    let mut a = LlamaAttention::new(d.n_heads, d.n_kv_heads, d.head_dim).unwrap();
    a.wq = pattern(&[d.hidden, d.n_heads * d.head_dim], seeds[0]);
    a.wk = pattern(&[d.hidden, d.n_kv_heads * d.head_dim], seeds[1]);
    a.wv = pattern(&[d.hidden, d.n_kv_heads * d.head_dim], seeds[2]);
    a.wo = pattern(&[d.n_heads * d.head_dim, d.out], seeds[3]);
    a
}

fn zero_attention(n_heads: usize, n_kv_heads: usize, head_dim: usize, hidden: usize) -> LlamaAttention<F> {
    let mut a = LlamaAttention::new(n_heads, n_kv_heads, head_dim).unwrap();
    a.wq = zeros(&[hidden, n_heads * head_dim]);
    a.wk = zeros(&[hidden, n_kv_heads * head_dim]);
    a.wv = zeros(&[hidden, n_kv_heads * head_dim]);
    a.wo = zeros(&[n_heads * head_dim, hidden]);
    a
}

fn zero_layer(n_heads: usize, n_kv_heads: usize, head_dim: usize, ffn: usize) -> LlamaDecoderLayer<F> {
    let hidden = n_heads * head_dim;
    LlamaDecoderLayer::from_weights(
        zero_attention(n_heads, n_kv_heads, head_dim, hidden),
        zeros(&[hidden]),
        zeros(&[hidden]),
        zeros(&[hidden, ffn]),
        zeros(&[ffn, hidden]),
        zeros(&[hidden, ffn]),
    )
    .unwrap()
}

fn zero_model(vocab: usize, n_layers: usize) -> LlamaModel<F> {
    let layers = (0..n_layers).map(|_| zero_layer(4, 2, 2, 6)).collect();
    LlamaModel::from_weights(zeros(&[vocab, 8]), layers, zeros(&[8]), zeros(&[8, vocab])).unwrap()
}

fn rmsnorm_by_hand(x: &[f32], w: &[f32]) -> Vec<f32> {
    let d = w.len();
    let eps = 1.0f32 / 100000.0;
    let mut out = Vec::new();
    for row in x.chunks(d) {
        let mut sum = 0.0f32;
        for v in row {
            sum += v * v;
        }
        let scale = 1.0 / (sum / d as f32 + eps).sqrt();
        for (v, weight) in row.iter().zip(w) {
            out.push(v * scale * weight);
        }
    }
    out
}

struct LayerWeights {
    dims: Dims,
    lora_w1: Option<LoraAdapter<F>>,
    lora_w2: Option<LoraAdapter<F>>,
    lora_w3: Option<LoraAdapter<F>>,
    wq: Tensor<F>,
    wk: Tensor<F>,
    wv: Tensor<F>,
    wo: Tensor<F>,
    attention_norm: Tensor<F>,
    ffn_norm: Tensor<F>,
    w1: Tensor<F>,
    w2: Tensor<F>,
    w3: Tensor<F>,
}

fn layer_weights(seq: usize, seed: usize) -> LayerWeights {
    let dims = Dims { seq, hidden: 4, n_heads: 2, n_kv_heads: 1, head_dim: 2, out: 4 };
    LayerWeights {
        wq: pattern(&[4, 4], seed),
        wk: pattern(&[4, 2], seed + 1),
        wv: pattern(&[4, 2], seed + 2),
        wo: pattern(&[4, 4], seed + 3),
        attention_norm: pattern(&[4], seed + 4),
        ffn_norm: pattern(&[4], seed + 5),
        w1: pattern(&[4, 3], seed + 6),
        w2: pattern(&[3, 4], seed + 7),
        w3: pattern(&[4, 3], seed + 8),
        lora_w1: None,
        lora_w2: None,
        lora_w3: None,
        dims,
    }
}

fn copy_adapter(a: &Option<LoraAdapter<F>>) -> Option<LoraAdapter<F>> {
    a.as_ref().map(|ad| LoraAdapter { lora_a: copy(&ad.lora_a), lora_b: copy(&ad.lora_b) })
}

fn copy(t: &Tensor<F>) -> Tensor<F> {
    Tensor::new(t.shape().clone(), t.data().clone()).unwrap()
}

fn layer_of(w: &LayerWeights) -> LlamaDecoderLayer<F> {
    let mut a = LlamaAttention::new(w.dims.n_heads, w.dims.n_kv_heads, w.dims.head_dim).unwrap();
    a.wq = copy(&w.wq);
    a.wk = copy(&w.wk);
    a.wv = copy(&w.wv);
    a.wo = copy(&w.wo);
    LlamaDecoderLayer::from_weights(
        a,
        copy(&w.attention_norm),
        copy(&w.ffn_norm),
        copy(&w.w1),
        copy(&w.w2),
        copy(&w.w3),
    )
    .unwrap()
    .with_adapters(copy_adapter(&w.lora_w1), copy_adapter(&w.lora_w2), copy_adapter(&w.lora_w3))
    .unwrap()
}

fn layer_by_hand(w: &LayerWeights, x: &[f32]) -> Vec<f32> {
    let seq = w.dims.seq;
    let normed = rmsnorm_by_hand(x, &values(&w.attention_norm));
    let attended = attention_by_hand(
        &w.dims,
        &normed,
        &values(&w.wq),
        &values(&w.wk),
        &values(&w.wv),
        &values(&w.wo),
    );
    let h: Vec<f32> = x.iter().zip(&attended).map(|(a, b)| a + b).collect();
    let h_normed = rmsnorm_by_hand(&h, &values(&w.ffn_norm));
    let gate = project(&h_normed, &values(&w.w1), &factors(&w.lora_w1), seq, 4, 3);
    let up = project(&h_normed, &values(&w.w3), &factors(&w.lora_w3), seq, 4, 3);
    let hidden: Vec<f32> =
        gate.iter().zip(&up).map(|(g, u)| g / (1.0 + (-g).exp()) * u).collect();
    let fed = project(&hidden, &values(&w.w2), &factors(&w.lora_w2), seq, 3, 4);
    h.iter().zip(&fed).map(|(a, b)| a + b).collect()
}

#[test]
fn decoder_layer_agrees_with_a_computation_by_hand() {
    let w = layer_weights(3, 11);
    let x = pattern(&[3, 4], 20);
    let got = layer_of(&w).forward(&x).unwrap();
    assert_eq!(got.shape(), &vec![3, 4]);
    let expected = layer_by_hand(&w, &values(&x));
    assert!(max_abs_diff(&values(&got), &expected) < 1e-4);
    assert!(max_abs_diff(&values(&x), &expected) > 0.1);
}

#[test]
fn decoder_layer_with_adapters_agrees_with_a_computation_by_hand() {
    let mut w = layer_weights(3, 11);
    let x = pattern(&[3, 4], 20);
    let plain = layer_by_hand(&w, &values(&x));
    w.lora_w1 = Some(adapter(4, 2, 3, 60));
    w.lora_w2 = Some(adapter(3, 1, 4, 62));
    w.lora_w3 = Some(adapter(4, 3, 3, 64));
    let got = layer_of(&w).forward(&x).unwrap();
    assert_eq!(got.shape(), &vec![3, 4]);
    let expected = layer_by_hand(&w, &values(&x));
    assert!(max_abs_diff(&values(&got), &expected) < 1e-4);
    assert!(max_abs_diff(&plain, &expected) > 0.1);
}

#[test]
fn decoder_layer_refuses_adapters_that_do_not_go_with_their_weights() {
    let layer = || zero_layer(4, 2, 2, 6);
    assert!(layer().with_adapters(None, None, None).is_ok());
    assert!(layer()
        .with_adapters(Some(adapter(8, 2, 6, 1)), Some(adapter(6, 1, 8, 2)), Some(adapter(8, 3, 6, 3)))
        .is_ok());
    assert_eq!(
        layer().with_adapters(Some(adapter(8, 2, 5, 1)), None, None).err(),
        Some(TensorError::ConfigurationInvalid)
    );
    assert_eq!(
        layer().with_adapters(None, Some(adapter(8, 2, 6, 1)), None).err(),
        Some(TensorError::ConfigurationInvalid)
    );
    assert_eq!(
        layer().with_adapters(None, None, Some(adapter(6, 2, 8, 1))).err(),
        Some(TensorError::ConfigurationInvalid)
    );
    let mut a = zero_attention(4, 2, 2, 8);
    a.lora_k = Some(adapter(8, 2, 8, 1));
    let with_bad_attention = LlamaDecoderLayer::from_weights(
        a,
        zeros(&[8]),
        zeros(&[8]),
        zeros(&[8, 6]),
        zeros(&[6, 8]),
        zeros(&[8, 6]),
    );
    assert_eq!(with_bad_attention.err(), Some(TensorError::ConfigurationInvalid));
}

#[test]
fn model_agrees_with_a_computation_by_hand() {
    let tokens = [4usize, 0, 2];
    let mut first = layer_weights(tokens.len(), 31);
    first.lora_w2 = Some(adapter(3, 2, 4, 70));
    let second = layer_weights(tokens.len(), 47);
    let embedding = pattern(&[5, 4], 2);
    let norm = pattern(&[4], 3);
    let output = pattern(&[4, 5], 5);
    let model = LlamaModel::from_weights(
        copy(&embedding),
        vec![layer_of(&first), layer_of(&second)],
        copy(&norm),
        copy(&output),
    )
    .unwrap();
    let logits = model.forward(&tokens).unwrap();
    assert_eq!(logits.shape(), &vec![3, 5]);

    let table = values(&embedding);
    let mut h = Vec::new();
    for t in tokens {
        h.extend_from_slice(&table[4 * t..4 * t + 4]);
    }
    let h = layer_by_hand(&first, &h);
    let h = layer_by_hand(&second, &h);
    let normed = rmsnorm_by_hand(&h, &values(&norm));
    let expected = matmul(&normed, &values(&output), 3, 4, 5);
    assert!(max_abs_diff(&values(&logits), &expected) < 1e-4);
    assert!(expected.iter().any(|v| v.abs() > 0.1));
}

#[test]
fn test_create_llama_model() {
    let _llama_model = LlamaModel::<F>::new(8, 4, 128, 32000, 32).unwrap();
}

#[test]
fn test_llama_attention() {
    let n_heads = 8;
    let n_kv_heads = 4;
    let head_dim = 128;
    let seq_len = 10;
    let hidden_dim = n_heads * head_dim;

    let mut attention = LlamaAttention::new(n_heads, n_kv_heads, head_dim).unwrap();
    attention.wq = zeros(&[hidden_dim, n_heads * head_dim]);
    attention.wk = zeros(&[hidden_dim, n_kv_heads * head_dim]);
    attention.wv = zeros(&[hidden_dim, n_kv_heads * head_dim]);
    attention.wo = zeros(&[n_heads * head_dim, hidden_dim]);

    let input = zeros(&[seq_len, hidden_dim]);
    let output = attention.forward(&input).unwrap();

    assert_eq!(output.shape(), &[seq_len, hidden_dim]);
}

#[test]
fn attention_agrees_with_a_computation_by_hand() {
    let d = Dims { seq: 3, hidden: 5, n_heads: 4, n_kv_heads: 2, head_dim: 2, out: 3 };
    let a = attention(&d, [1, 2, 3, 4]);
    let x = pattern(&[d.seq, d.hidden], 9);
    let got = a.forward(&x).unwrap();
    assert_eq!(got.shape(), &vec![3, 3]);
    let expected = attention_by_hand(
        &d,
        &values(&x),
        &values(&a.wq),
        &values(&a.wk),
        &values(&a.wv),
        &values(&a.wo),
    );
    assert!(max_abs_diff(&values(&got), &expected) < 1e-4);
    assert!(expected.iter().any(|v| v.abs() > 0.1));
}

#[test]
fn attention_with_one_kv_head_per_query_head_agrees_with_a_computation_by_hand() {
    let d = Dims { seq: 4, hidden: 6, n_heads: 3, n_kv_heads: 3, head_dim: 4, out: 6 };
    let a = attention(&d, [5, 6, 7, 8]);
    let x = pattern(&[d.seq, d.hidden], 3);
    let got = a.forward(&x).unwrap();
    let expected = attention_by_hand(
        &d,
        &values(&x),
        &values(&a.wq),
        &values(&a.wk),
        &values(&a.wv),
        &values(&a.wo),
    );
    assert!(max_abs_diff(&values(&got), &expected) < 1e-4);
}

#[test]
fn query_heads_of_one_group_attend_alike_when_their_queries_agree() {
    // Two query heads share the one key/value head. With equal query weights
    // for both heads they see the same keys and the same values, so what
    // they hand on is the same.
    let d = Dims { seq: 3, hidden: 2, n_heads: 2, n_kv_heads: 1, head_dim: 2, out: 4 };
    let mut a = LlamaAttention::new(d.n_heads, d.n_kv_heads, d.head_dim).unwrap();
    a.wq = tensor(&[2, 4], &[0.5, -1.0, 0.5, -1.0, 2.0, 0.25, 2.0, 0.25]);
    a.wk = pattern(&[2, 2], 1);
    a.wv = pattern(&[2, 2], 2);
    a.wo = tensor(
        &[4, 4],
        &[1.0, 0.0, 0.0, 0.0, 0.0, 1.0, 0.0, 0.0, 0.0, 0.0, 1.0, 0.0, 0.0, 0.0, 0.0, 1.0],
    );
    a.rotary_dim = 0;
    let x = pattern(&[d.seq, d.hidden], 4);
    let out = values(&a.forward(&x).unwrap());
    for t in 0..d.seq {
        assert_eq!(&out[4 * t..4 * t + 2], &out[4 * t + 2..4 * t + 4]);
    }
    assert!(out.iter().any(|v| *v != 0.0));
}

#[test]
fn attention_with_adapters_agrees_with_a_computation_by_hand() {
    let d = Dims { seq: 3, hidden: 5, n_heads: 4, n_kv_heads: 2, head_dim: 2, out: 3 };
    let mut a = attention(&d, [1, 2, 3, 4]);
    let x = pattern(&[d.seq, d.hidden], 9);
    let plain = values(&a.forward(&x).unwrap());
    a.lora_q = Some(adapter(5, 2, 8, 21));
    a.lora_v = Some(adapter(5, 1, 4, 23));
    assert!(a.is_consistent());
    let got = a.forward(&x).unwrap();
    assert_eq!(got.shape(), &vec![3, 3]);
    let expected = attention_with_adapters_by_hand(
        &d,
        &values(&x),
        [&values(&a.wq), &values(&a.wk), &values(&a.wv), &values(&a.wo)],
        [&factors(&a.lora_q), &None, &factors(&a.lora_v)],
    );
    assert!(max_abs_diff(&values(&got), &expected) < 1e-4);
    assert!(max_abs_diff(&plain, &expected) > 0.1);

    a.lora_k = Some(adapter(5, 3, 4, 25));
    let got = a.forward(&x).unwrap();
    let expected = attention_with_adapters_by_hand(
        &d,
        &values(&x),
        [&values(&a.wq), &values(&a.wk), &values(&a.wv), &values(&a.wo)],
        [&factors(&a.lora_q), &factors(&a.lora_k), &factors(&a.lora_v)],
    );
    assert!(max_abs_diff(&values(&got), &expected) < 1e-4);
}

#[test]
fn attention_refuses_adapters_that_do_not_go_with_their_weights() {
    let with = |q: Option<LoraAdapter<F>>, k: Option<LoraAdapter<F>>, v: Option<LoraAdapter<F>>| {
        let mut a = zero_attention(4, 2, 2, 8);
        a.lora_q = q;
        a.lora_k = k;
        a.lora_v = v;
        a
    };
    let x = zeros(&[3, 8]);
    assert!(with(Some(adapter(8, 3, 8, 1)), Some(adapter(8, 1, 4, 2)), Some(adapter(8, 0, 4, 3)))
        .forward(&x)
        .is_ok());
    let wrong_rows = with(Some(adapter(7, 3, 8, 1)), None, None);
    assert!(!wrong_rows.is_consistent());
    assert_eq!(wrong_rows.forward(&x).err(), Some(TensorError::ConfigurationInvalid));
    let wrong_columns = with(None, Some(adapter(8, 3, 8, 1)), None);
    assert_eq!(wrong_columns.forward(&x).err(), Some(TensorError::ConfigurationInvalid));
    let stretched = with(None, None, Some(adapter(8, 3, 1, 1)));
    assert_eq!(stretched.forward(&x).err(), Some(TensorError::ConfigurationInvalid));
    let wrong_rank = with(
        None,
        None,
        Some(LoraAdapter { lora_a: zeros(&[8, 3]), lora_b: zeros(&[2, 4]) }),
    );
    assert_eq!(wrong_rank.forward(&x).err(), Some(TensorError::ConfigurationInvalid));
    let not_matrices =
        with(Some(LoraAdapter { lora_a: zeros(&[8]), lora_b: zeros(&[8]) }), None, None);
    assert_eq!(not_matrices.forward(&x).err(), Some(TensorError::ConfigurationInvalid));
}

#[test]
fn attention_new_refuses_head_counts_that_do_not_go_together() {
    assert_eq!(
        LlamaAttention::<F>::new(8, 3, 128).err(),
        Some(TensorError::ConfigurationInvalid)
    );
    assert_eq!(LlamaAttention::<F>::new(8, 0, 128).err(), Some(TensorError::ConfigurationInvalid));
    assert_eq!(LlamaAttention::<F>::new(4, 8, 128).err(), Some(TensorError::ConfigurationInvalid));
    assert_eq!(
        LlamaAttention::<F>::new(usize::MAX, 1, 2).err(),
        Some(TensorError::ConfigurationInvalid)
    );
    let a = LlamaAttention::<F>::new(8, 4, 128).unwrap();
    assert_eq!((a.n_heads, a.n_kv_heads, a.head_dim, a.rotary_dim), (8, 4, 128, 128));
    assert_eq!(a.wq.shape(), &vec![1, 1]);
    assert_eq!(values(&a.wo), vec![0.0]);
    assert!(a.lora_q.is_none() && a.lora_k.is_none() && a.lora_v.is_none());
    assert!(LlamaAttention::<F>::new(8, 8, 0).is_ok());
}

#[test]
fn attention_forward_says_what_does_not_fit() {
    let placeholder = LlamaAttention::<F>::new(8, 4, 128).unwrap();
    assert!(!placeholder.is_consistent());
    assert_eq!(
        placeholder.forward(&zeros(&[10, 1024])).err(),
        Some(TensorError::ConfigurationInvalid)
    );

    let a = zero_attention(4, 2, 2, 8);
    assert!(a.is_consistent());
    assert_eq!(a.check(&zeros(&[3, 8])), None);
    assert_eq!(a.forward(&zeros(&[3, 7])).err(), Some(TensorError::ShapeMismatch));
    assert_eq!(a.forward(&zeros(&[8])).err(), Some(TensorError::ShapeMismatch));
    assert_eq!(a.forward(&zeros(&[1, 3, 8])).err(), Some(TensorError::ShapeMismatch));
    assert_eq!(a.forward(&zeros(&[0, 8])).unwrap().shape(), &vec![0, 8]);

    let mut bad = zero_attention(4, 2, 2, 8);
    bad.n_kv_heads = 3;
    assert_eq!(bad.forward(&zeros(&[3, 8])).err(), Some(TensorError::ConfigurationInvalid));
    let mut bad = zero_attention(4, 2, 2, 8);
    bad.rotary_dim = 3;
    assert_eq!(bad.forward(&zeros(&[3, 8])).err(), Some(TensorError::ConfigurationInvalid));
    let mut bad = zero_attention(4, 2, 2, 8);
    bad.wk = zeros(&[8, 8]);
    assert_eq!(bad.forward(&zeros(&[3, 8])).err(), Some(TensorError::ConfigurationInvalid));
    let mut bad = zero_attention(4, 2, 2, 8);
    bad.wv = zeros(&[7, 4]);
    assert_eq!(bad.forward(&zeros(&[3, 8])).err(), Some(TensorError::ConfigurationInvalid));
    let mut bad = zero_attention(4, 2, 2, 8);
    bad.wo = zeros(&[4, 8]);
    assert_eq!(bad.forward(&zeros(&[3, 7])).err(), Some(TensorError::ConfigurationInvalid));
}

#[test]
fn attention_has_positions_up_to_the_longest_sequence() {
    let a = zero_attention(1, 1, 1, 1);
    assert_eq!(a.check(&zeros(&[2048, 1])), None);
    assert_eq!(a.check(&zeros(&[2049, 1])), None);
    assert_eq!(a.check(&zeros(&[2050, 1])), Some(TensorError::IndexOutOfRange));
    assert_eq!(a.forward(&zeros(&[2050, 1])).err(), Some(TensorError::IndexOutOfRange));
    assert_eq!(a.forward(&zeros(&[2050, 2])).err(), Some(TensorError::ShapeMismatch));
}

#[test]
fn decoder_layer_of_zeros_hands_its_input_on() {
    let layer = zero_layer(4, 2, 2, 6);
    assert!(layer.is_consistent());
    let x = pattern(&[3, 8], 5);
    let y = layer.forward(&x).unwrap();
    assert_eq!(y.shape(), &vec![3, 8]);
    assert_eq!(values(&y), values(&x));
}

#[test]
fn decoder_layer_adds_attention_and_feed_forward_to_its_input() {
    // One head of one feature and one token: the attention weight is 1, so
    // the attention hands on the value, and every step can be done by hand.
    let mut a = LlamaAttention::new(1, 1, 1).unwrap();
    a.wq = tensor(&[1, 1], &[3.0]);
    a.wk = tensor(&[1, 1], &[-2.0]);
    a.wv = tensor(&[1, 1], &[0.5]);
    a.wo = tensor(&[1, 1], &[4.0]);
    let layer = LlamaDecoderLayer::from_weights(
        a,
        tensor(&[1], &[2.0]),
        tensor(&[1], &[0.5]),
        tensor(&[1, 2], &[1.0, -1.0]),
        tensor(&[2, 1], &[2.0, 3.0]),
        tensor(&[1, 2], &[0.25, 4.0]),
    )
    .unwrap();
    let x = 3.0f32;
    let y = layer.forward(&tensor(&[1, 1], &[x])).unwrap();
    let eps = 1.0f32 / 100000.0;
    let normed = x * (1.0 / (x * x / 1.0 + eps).sqrt()) * 2.0;
    let h = x + normed * 0.5 * 4.0;
    let h_normed = h * (1.0 / (h * h / 1.0 + eps).sqrt()) * 0.5;
    let silu = |v: f32| v / (1.0 + (-v).exp());
    let hidden = [silu(h_normed * 1.0) * (h_normed * 0.25), silu(h_normed * -1.0) * (h_normed * 4.0)];
    let expected = h + (hidden[0] * 2.0 + hidden[1] * 3.0);
    assert!(max_abs_diff(&values(&y), &[expected]) < 1e-5);
    assert!((values(&y)[0] - x).abs() > 1.0);
}

#[test]
fn decoder_layer_says_what_does_not_fit() {
    assert_eq!(
        LlamaDecoderLayer::<F>::new(8, 3, 128).err(),
        Some(TensorError::ConfigurationInvalid)
    );
    assert_eq!(
        LlamaDecoderLayer::<F>::new(usize::MAX, 1, 1).err(),
        Some(TensorError::ConfigurationInvalid)
    );
    let layer = zero_layer(4, 2, 2, 6);
    assert_eq!(layer.check(&zeros(&[3, 8])), None);
    assert_eq!(layer.forward(&zeros(&[3, 4])).err(), Some(TensorError::ShapeMismatch));
    assert_eq!(layer.forward(&zeros(&[8])).err(), Some(TensorError::ShapeMismatch));
    assert_eq!(layer.forward(&zeros(&[2050, 8])).err(), Some(TensorError::IndexOutOfRange));

    let bad_norm = LlamaDecoderLayer::from_weights(
        zero_attention(4, 2, 2, 8),
        zeros(&[7]),
        zeros(&[8]),
        zeros(&[8, 6]),
        zeros(&[6, 8]),
        zeros(&[8, 6]),
    );
    assert_eq!(bad_norm.err(), Some(TensorError::ConfigurationInvalid));
    let bad_matrix_norm = LlamaDecoderLayer::from_weights(
        zero_attention(4, 2, 2, 8),
        zeros(&[8]),
        zeros(&[1, 8]),
        zeros(&[8, 6]),
        zeros(&[6, 8]),
        zeros(&[8, 6]),
    );
    assert_eq!(bad_matrix_norm.err(), Some(TensorError::ConfigurationInvalid));
    let bad_down = LlamaDecoderLayer::from_weights(
        zero_attention(4, 2, 2, 8),
        zeros(&[8]),
        zeros(&[8]),
        zeros(&[8, 6]),
        zeros(&[5, 8]),
        zeros(&[8, 6]),
    );
    assert_eq!(bad_down.err(), Some(TensorError::ConfigurationInvalid));
    let bad_up = LlamaDecoderLayer::from_weights(
        zero_attention(4, 2, 2, 8),
        zeros(&[8]),
        zeros(&[8]),
        zeros(&[8, 6]),
        zeros(&[6, 8]),
        zeros(&[8, 5]),
    );
    assert_eq!(bad_up.err(), Some(TensorError::ConfigurationInvalid));
    let bad_width = LlamaDecoderLayer::from_weights(
        zero_attention(4, 2, 2, 7),
        zeros(&[7]),
        zeros(&[7]),
        zeros(&[7, 6]),
        zeros(&[6, 7]),
        zeros(&[7, 6]),
    );
    assert!(bad_width.is_ok());
    let mut uneven = zero_attention(4, 2, 2, 8);
    uneven.wo = zeros(&[8, 9]);
    let bad_residual = LlamaDecoderLayer::from_weights(
        uneven,
        zeros(&[8]),
        zeros(&[8]),
        zeros(&[8, 6]),
        zeros(&[6, 8]),
        zeros(&[8, 6]),
    );
    assert_eq!(bad_residual.err(), Some(TensorError::ConfigurationInvalid));
}

#[test]
fn new_layer_hands_its_input_on() {
    let layer = LlamaDecoderLayer::<F>::new(1, 1, 1).unwrap();
    assert!(layer.is_consistent());
    let x = tensor(&[2, 1], &[5.0, -3.0]);
    let y = layer.forward(&x).unwrap();
    assert_eq!(y.shape(), &vec![2, 1]);
    assert_eq!(values(&y), vec![5.0, -3.0]);

    let layer = LlamaDecoderLayer::<F>::new(4, 2, 3).unwrap();
    assert!(layer.is_consistent());
    assert_eq!(layer.check(&zeros(&[5, 12])), None);
    let x = pattern(&[5, 12], 7);
    let y = layer.forward(&x).unwrap();
    assert_eq!(y.shape(), &vec![5, 12]);
    assert_eq!(values(&y), values(&x));
    assert_eq!(layer.forward(&zeros(&[5, 11])).err(), Some(TensorError::ShapeMismatch));
}

#[test]
fn new_model_gives_zero_logits() {
    let model = LlamaModel::<F>::new(1, 1, 1, 1, 2).unwrap();
    assert!(model.is_consistent());
    let logits = model.forward(&[0, 0, 0]).unwrap();
    assert_eq!(logits.shape(), &vec![3, 1]);
    assert_eq!(values(&logits), vec![0.0; 3]);

    let model = LlamaModel::<F>::new(2, 1, 2, 5, 1).unwrap();
    assert!(model.is_consistent());
    assert_eq!(model.check(&[0, 4, 2]), None);
    let logits = model.forward(&[0, 4, 2]).unwrap();
    assert_eq!(logits.shape(), &vec![3, 5]);
    assert_eq!(values(&logits), vec![0.0; 15]);
    assert!(values(&logits).iter().all(|v| !v.is_nan()));
    assert_eq!(model.forward(&[0, 5]).err(), Some(TensorError::IndexOutOfRange));

    let model = LlamaModel::<F>::new(8, 4, 4, 50, 3).unwrap();
    for tokens in [vec![], vec![49], vec![1, 2, 3, 4], vec![7; 20]] {
        let logits = model.forward(&tokens).unwrap();
        assert_eq!(logits.shape(), &vec![tokens.len(), 50]);
        assert_eq!(values(&logits), vec![0.0; tokens.len() * 50]);
    }
    let without_layers = LlamaModel::<F>::new(2, 2, 3, 4, 0).unwrap();
    assert_eq!(values(&without_layers.forward(&[3, 0]).unwrap()), vec![0.0; 8]);
}

#[test]
fn model_of_zeros_gives_zero_logits() {
    let model = zero_model(5, 2);
    for tokens in [vec![], vec![0], vec![4, 4, 4], vec![1, 2, 3, 4, 0, 2]] {
        let logits = model.forward(&tokens).unwrap();
        assert_eq!(logits.shape(), &vec![tokens.len(), 5]);
        assert_eq!(values(&logits), vec![0.0; tokens.len() * 5]);
    }
}

#[test]
fn model_looks_up_normalises_and_projects() {
    // No layers: the logits are the projected, normalised embedding rows.
    let embedding = tensor(&[3, 2], &[3.0, 4.0, 0.0, 2.0, -1.0, 1.0]);
    let norm = tensor(&[2], &[1.0, 2.0]);
    let output = tensor(&[2, 3], &[1.0, 0.0, 1.0, 0.0, 1.0, -1.0]);
    let model = LlamaModel::from_weights(embedding, Vec::new(), norm, output).unwrap();
    let logits = model.forward(&[2, 0]).unwrap();
    assert_eq!(logits.shape(), &vec![2, 3]);
    let eps = 1.0f32 / 100000.0;
    let s0 = 1.0 / (1.0f32 + eps).sqrt();
    let s1 = 1.0 / (12.5f32 + eps).sqrt();
    let rows = [[-1.0 * s0, 1.0 * s0 * 2.0], [3.0 * s1, 4.0 * s1 * 2.0]];
    let mut expected = Vec::new();
    for r in rows.iter() {
        expected.extend_from_slice(&[r[0], r[1], r[0] - r[1]]);
    }
    assert!(max_abs_diff(&values(&logits), &expected) < 1e-6);
}

#[test]
fn model_runs_its_layers_in_order() {
    let layer = |scale: f32| {
        let mut a = LlamaAttention::new(1, 1, 1).unwrap();
        a.wq = tensor(&[1, 1], &[1.0]);
        a.wk = tensor(&[1, 1], &[1.0]);
        a.wv = tensor(&[1, 1], &[scale]);
        a.wo = tensor(&[1, 1], &[1.0]);
        LlamaDecoderLayer::from_weights(
            a,
            tensor(&[1], &[1.0]),
            tensor(&[1], &[1.0]),
            zeros(&[1, 1]),
            zeros(&[1, 1]),
            zeros(&[1, 1]),
        )
        .unwrap()
    };
    // With one token, each layer adds `scale` times the sign of its input.
    let model = LlamaModel::from_weights(
        tensor(&[2, 1], &[2.0, -3.0]),
        vec![layer(10.0), layer(-11.0)],
        tensor(&[1], &[1.0]),
        tensor(&[1, 2], &[1.0, 1.0]),
    )
    .unwrap();
    let logits = values(&model.forward(&[0]).unwrap());
    // 2 -> 2 + 10 = 12 -> 12 - 11 = 1 -> normalised to 1
    assert!(max_abs_diff(&logits, &[1.0, 1.0]) < 1e-4);
    let other_order = LlamaModel::from_weights(
        tensor(&[2, 1], &[2.0, -3.0]),
        vec![layer(-11.0), layer(10.0)],
        tensor(&[1], &[1.0]),
        tensor(&[1, 2], &[1.0, 1.0]),
    )
    .unwrap();
    // 2 -> 2 - 11 = -9 -> -9 - 10 = -19 -> normalised to -1
    let logits = values(&other_order.forward(&[0]).unwrap());
    assert!(max_abs_diff(&logits, &[-1.0, -1.0]) < 1e-4);
}

#[test]
fn model_says_what_does_not_fit() {
    assert_eq!(
        LlamaModel::<F>::new(8, 3, 128, 100, 2).err(),
        Some(TensorError::ConfigurationInvalid)
    );
    assert_eq!(
        LlamaModel::<F>::new(8, 4, 128, usize::MAX, 2).err(),
        Some(TensorError::ConfigurationInvalid)
    );
    assert_eq!(
        LlamaModel::<F>::new(1 << 20, 1, 1 << 20, 1, 1).err(),
        Some(TensorError::ConfigurationInvalid)
    );
    assert!(LlamaModel::<F>::new(3, 1, 2, 0, 0).is_ok());

    let model = zero_model(5, 2);
    assert!(model.is_consistent());
    assert_eq!(model.check(&[0, 4]), None);
    assert_eq!(model.forward(&[0, 5]).err(), Some(TensorError::IndexOutOfRange));
    assert_eq!(model.forward(&[usize::MAX]).err(), Some(TensorError::IndexOutOfRange));
    assert_eq!(model.forward(&vec![0; 2050]).err(), Some(TensorError::IndexOutOfRange));
    let without_layers = zero_model(5, 0);
    assert_eq!(without_layers.forward(&vec![0; 2050]).unwrap().shape(), &vec![2050, 5]);

    let bad_norm = LlamaModel::from_weights(zeros(&[5, 8]), Vec::new(), zeros(&[5]), zeros(&[8, 5]));
    assert_eq!(bad_norm.err(), Some(TensorError::ConfigurationInvalid));
    let bad_output =
        LlamaModel::from_weights(zeros(&[5, 8]), Vec::new(), zeros(&[8]), zeros(&[8, 4]));
    assert_eq!(bad_output.err(), Some(TensorError::ConfigurationInvalid));
    let bad_embedding =
        LlamaModel::from_weights(zeros(&[5, 8, 1]), Vec::new(), zeros(&[8]), zeros(&[8, 5]));
    assert_eq!(bad_embedding.err(), Some(TensorError::ConfigurationInvalid));
    let bad_layer = LlamaModel::from_weights(
        zeros(&[5, 6]),
        vec![zero_layer(4, 2, 2, 6)],
        zeros(&[6]),
        zeros(&[6, 5]),
    );
    assert_eq!(bad_layer.err(), Some(TensorError::ConfigurationInvalid));
}
