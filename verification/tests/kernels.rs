use unsloth_rs::error::TensorError;
use unsloth_rs::kernels::fast_lora::{
    adapter_fits, project, LoraAdapter, LoraLinear, LoraMlp, LoraQkv,
};
use unsloth_rs::scalar::Scalar;
use unsloth_rs::tensor::Tensor;

#[derive(Clone, Copy, Debug, PartialEq)]
struct F(f32);

impl Scalar for F {
    fn from_usize(n: usize) -> Self {
        F(n as f32)
    }
    fn neg_infinity() -> Self {
        F(f32::NEG_INFINITY)
    }
    fn add(self, rhs: Self) -> Self {
        F(self.0 + rhs.0)
    }
    fn sub(self, rhs: Self) -> Self {
        F(self.0 - rhs.0)
    }
    fn mul(self, rhs: Self) -> Self {
        F(self.0 * rhs.0)
    }
    fn div(self, rhs: Self) -> Self {
        F(self.0 / rhs.0)
    }
    fn neg(self) -> Self {
        F(-self.0)
    }
    fn max(self, rhs: Self) -> Self {
        F(self.0.max(rhs.0))
    }
    fn exp(self) -> Self {
        F(self.0.exp())
    }
    fn sqrt(self) -> Self {
        F(self.0.sqrt())
    }
    fn sin(self) -> Self {
        F(self.0.sin())
    }
    fn cos(self) -> Self {
        F(self.0.cos())
    }
    fn powf(self, exponent: Self) -> Self {
        F(self.0.powf(exponent.0))
    }
}

fn tensor(shape: &[usize], values: &[f32]) -> Tensor<F> {
    Tensor::new(shape.to_vec(), values.iter().map(|&v| F(v)).collect()).unwrap()
}

fn values(t: &Tensor<F>) -> Vec<f32> {
    t.data().iter().map(|v| v.0).collect()
}

fn max_abs_diff(got: &[f32], expected: &[f32]) -> f32 {
    assert_eq!(got.len(), expected.len());
    got.iter().zip(expected.iter()).fold(0.0, |max, (a, b)| (a - b).abs().max(max))
}

fn empty() -> Tensor<F> {
    Tensor::zeros(vec![0]).unwrap()
}

fn silu(x: f32) -> f32 {
    x / (1.0 + (-x).exp())
}

#[test]
fn test_create_lora_mlp() {
    let _lora_mlp = LoraMlp::new(
        empty(),
        empty(),
        empty(),
        empty(),
        empty(),
        empty(),
        empty(),
        empty(),
        empty(),
    );
}

#[test]
fn test_create_lora_qkv() {
    let _lora_qkv = LoraQkv::new(
        empty(),
        empty(),
        empty(),
        empty(),
        empty(),
        empty(),
        empty(),
        empty(),
        empty(),
    );
}

#[test]
fn lora_linear_adds_the_adapter_to_the_base() {
    let x = tensor(&[2, 2], &[1.0, 2.0, 3.0, 4.0]);
    let w = tensor(&[2, 3], &[1.0, 0.0, 2.0, 0.0, 1.0, 3.0]);
    let a = tensor(&[2, 1], &[1.0, -1.0]);
    let b = tensor(&[1, 3], &[10.0, 20.0, 30.0]);
    let layer = LoraLinear::new(w, a, b);
    let y = layer.forward(&x).unwrap();
    assert_eq!(y.shape(), &vec![2, 3]);
    // x * w = [[1, 2, 8], [3, 4, 18]]; x * a = [[-1], [-1]]; times b = [[-10, -20, -30]; 2]
    assert_eq!(values(&y), vec![-9.0, -18.0, -22.0, -7.0, -16.0, -12.0]);
}

#[test]
fn lora_linear_with_a_zero_adapter_is_the_base() {
    let x = tensor(&[2, 2], &[1.0, 2.0, 3.0, 4.0]);
    let w = tensor(&[2, 3], &[1.0, 0.0, 2.0, 0.0, 1.0, 3.0]);
    let base = x.matmul(&w).unwrap();
    let layer = LoraLinear::new(
        w,
        Tensor::zeros(vec![2, 4]).unwrap(),
        tensor(&[4, 3], &[5.0; 12]),
    );
    assert_eq!(values(&layer.forward(&x).unwrap()), values(&base));
}

#[test]
fn lora_linear_refuses_shapes_that_do_not_fit() {
    let x = tensor(&[2, 2], &[1.0, 2.0, 3.0, 4.0]);
    let w = || tensor(&[2, 3], &[0.0; 6]);
    let bad_base = LoraLinear::new(tensor(&[3, 3], &[0.0; 9]), tensor(&[2, 1], &[0.0; 2]), tensor(&[1, 3], &[0.0; 3]));
    assert_eq!(bad_base.forward(&x).err(), Some(TensorError::ShapeMismatch));
    let bad_a = LoraLinear::new(w(), tensor(&[3, 1], &[0.0; 3]), tensor(&[1, 3], &[0.0; 3]));
    assert_eq!(bad_a.forward(&x).err(), Some(TensorError::ShapeMismatch));
    let bad_rank = LoraLinear::new(w(), tensor(&[2, 1], &[0.0; 2]), tensor(&[2, 3], &[0.0; 6]));
    assert_eq!(bad_rank.forward(&x).err(), Some(TensorError::ShapeMismatch));
    let bad_out = LoraLinear::new(w(), tensor(&[2, 1], &[0.0; 2]), tensor(&[1, 2], &[0.0; 2]));
    assert_eq!(bad_out.forward(&x).err(), Some(TensorError::ShapeMismatch));
    let stretched = LoraLinear::new(w(), tensor(&[2, 1], &[0.0; 2]), tensor(&[1, 1], &[0.0]));
    assert_eq!(stretched.forward(&x).err(), Some(TensorError::ShapeMismatch));
    let not_matrices = LoraLinear::new(w(), tensor(&[2], &[0.0; 2]), tensor(&[3], &[0.0; 3]));
    assert_eq!(not_matrices.forward(&x).err(), Some(TensorError::ShapeMismatch));
    let rank_zero = LoraLinear::new(w(), tensor(&[2, 0], &[]), tensor(&[0, 3], &[]));
    assert_eq!(values(&rank_zero.forward(&x).unwrap()), vec![0.0; 6]);
    let vector = tensor(&[2], &[1.0, 2.0]);
    let fine = LoraLinear::new(w(), tensor(&[2, 1], &[0.0; 2]), tensor(&[1, 3], &[0.0; 3]));
    assert_eq!(fine.forward(&vector).err(), Some(TensorError::ShapeMismatch));
    assert!(fine.forward(&x).is_ok());
}

#[test]
fn lora_mlp_gates_the_up_projection() {
    let x = tensor(&[1, 2], &[1.0, -2.0]);
    let gate_w = tensor(&[2, 2], &[1.0, 0.0, 0.0, 1.0]);
    let up_w = tensor(&[2, 2], &[2.0, 0.0, 0.0, 3.0]);
    let down_w = tensor(&[2, 1], &[1.0, 1.0]);
    let a_gate = tensor(&[2, 1], &[1.0, 1.0]);
    let b_gate = tensor(&[1, 2], &[0.5, 0.0]);
    let a_up = tensor(&[2, 1], &[0.0, 0.0]);
    let b_up = tensor(&[1, 2], &[7.0, 7.0]);
    let a_down = tensor(&[2, 1], &[1.0, 0.0]);
    let b_down = tensor(&[1, 1], &[2.0]);
    let mlp = LoraMlp::new(gate_w, up_w, down_w, a_gate, b_gate, a_up, b_up, a_down, b_down);
    let y = mlp.forward(&x).unwrap();
    assert_eq!(y.shape(), &vec![1, 1]);
    // gate = silu([1, -2] + [-1] * [0.5, 0]) = silu([0.5, -2]); up = [2, -6]
    let hidden = [silu(0.5) * 2.0, silu(-2.0) * -6.0];
    let expected = hidden[0] + hidden[1] + 2.0 * hidden[0];
    assert!(max_abs_diff(&values(&y), &[expected]) < 1e-6);
}

#[test]
fn lora_mlp_of_zeros_is_zero() {
    let z = |shape: &[usize]| Tensor::<F>::zeros(shape.to_vec()).unwrap();
    let mlp = LoraMlp::new(
        z(&[2, 2]),
        z(&[2, 2]),
        z(&[2, 2]),
        z(&[2, 2]),
        z(&[2, 2]),
        z(&[2, 2]),
        z(&[2, 2]),
        z(&[2, 2]),
        z(&[2, 2]),
    );
    let x = tensor(&[2, 2], &[1.0, 2.0, 3.0, 4.0]);
    let y = mlp.forward(&x).unwrap();
    assert_eq!(y.shape(), &vec![2, 2]);
    assert_eq!(values(&y), vec![0.0; 4]);
}

#[test]
fn lora_mlp_refuses_shapes_that_do_not_fit() {
    let z = |shape: &[usize]| Tensor::<F>::zeros(shape.to_vec()).unwrap();
    let x = tensor(&[2, 2], &[1.0, 2.0, 3.0, 4.0]);
    let of_empties = LoraMlp::new(
        empty(),
        empty(),
        empty(),
        empty(),
        empty(),
        empty(),
        empty(),
        empty(),
        empty(),
    );
    assert_eq!(of_empties.forward(&x).err(), Some(TensorError::ShapeMismatch));
    let bad_down = LoraMlp::new(
        z(&[2, 3]),
        z(&[2, 3]),
        z(&[2, 2]),
        z(&[2, 1]),
        z(&[1, 3]),
        z(&[2, 1]),
        z(&[1, 3]),
        z(&[3, 1]),
        z(&[1, 2]),
    );
    assert_eq!(bad_down.forward(&x).err(), Some(TensorError::ShapeMismatch));
    let bad_up = LoraMlp::new(
        z(&[2, 3]),
        z(&[2, 4]),
        z(&[3, 2]),
        z(&[2, 1]),
        z(&[1, 3]),
        z(&[2, 1]),
        z(&[1, 4]),
        z(&[3, 1]),
        z(&[1, 2]),
    );
    assert_eq!(bad_up.forward(&x).err(), Some(TensorError::ShapeMismatch));
    let fine = LoraMlp::new(
        z(&[2, 3]),
        z(&[2, 3]),
        z(&[3, 2]),
        z(&[2, 1]),
        z(&[1, 3]),
        z(&[2, 1]),
        z(&[1, 3]),
        z(&[3, 1]),
        z(&[1, 2]),
    );
    assert_eq!(fine.forward(&x).unwrap().shape(), &vec![2, 2]);
    assert_eq!(fine.forward(&tensor(&[2, 3], &[0.0; 6])).err(), Some(TensorError::ShapeMismatch));
}

#[test]
fn lora_qkv_projects_one_input_three_times() {
    let x = tensor(&[2, 2], &[1.0, 2.0, 3.0, 4.0]);
    let identity = || tensor(&[2, 2], &[1.0, 0.0, 0.0, 1.0]);
    let a = |v: f32| tensor(&[2, 1], &[v, 0.0]);
    let b = || tensor(&[1, 2], &[1.0, 1.0]);
    let qkv = LoraQkv::new(
        identity(),
        tensor(&[2, 2], &[2.0, 0.0, 0.0, 2.0]),
        tensor(&[2, 1], &[1.0, 1.0]),
        a(1.0),
        b(),
        a(0.0),
        b(),
        a(-1.0),
        tensor(&[1, 1], &[1.0]),
    );
    let (q, k, v) = qkv.forward(&x).unwrap();
    assert_eq!(q.shape(), &vec![2, 2]);
    assert_eq!(values(&q), vec![2.0, 3.0, 6.0, 7.0]);
    assert_eq!(values(&k), vec![2.0, 4.0, 6.0, 8.0]);
    assert_eq!(v.shape(), &vec![2, 1]);
    assert_eq!(values(&v), vec![2.0, 4.0]);
}

#[test]
fn lora_qkv_refuses_shapes_that_do_not_fit() {
    let z = |shape: &[usize]| Tensor::<F>::zeros(shape.to_vec()).unwrap();
    let x = tensor(&[2, 2], &[1.0, 2.0, 3.0, 4.0]);
    let bad_v = LoraQkv::new(
        z(&[2, 2]),
        z(&[2, 2]),
        z(&[3, 2]),
        z(&[2, 1]),
        z(&[1, 2]),
        z(&[2, 1]),
        z(&[1, 2]),
        z(&[2, 1]),
        z(&[1, 2]),
    );
    assert_eq!(bad_v.forward(&x).err(), Some(TensorError::ShapeMismatch));
    let of_empties = LoraQkv::new(
        empty(),
        empty(),
        empty(),
        empty(),
        empty(),
        empty(),
        empty(),
        empty(),
        empty(),
    );
    assert_eq!(of_empties.forward(&x).err(), Some(TensorError::ShapeMismatch));
}

#[test]
fn project_adds_the_adapter_where_there_is_one() {
    let x = tensor(&[2, 2], &[1.0, 2.0, 3.0, 4.0]);
    let w = tensor(&[2, 3], &[1.0, 0.0, 2.0, 0.0, 1.0, 3.0]);
    let plain = project(&x, &w, &None).unwrap();
    assert_eq!(plain.shape(), &vec![2, 3]);
    assert_eq!(values(&plain), vec![1.0, 2.0, 8.0, 3.0, 4.0, 18.0]);
    let adapter = Some(LoraAdapter {
        lora_a: tensor(&[2, 1], &[1.0, -1.0]),
        lora_b: tensor(&[1, 3], &[10.0, 20.0, 30.0]),
    });
    let adapted = project(&x, &w, &adapter).unwrap();
    assert_eq!(values(&adapted), vec![-9.0, -18.0, -22.0, -7.0, -16.0, -12.0]);
    let bad = Some(LoraAdapter {
        lora_a: tensor(&[3, 1], &[0.0; 3]),
        lora_b: tensor(&[1, 3], &[0.0; 3]),
    });
    assert_eq!(project(&x, &w, &bad).err(), Some(TensorError::ShapeMismatch));
    assert_eq!(project(&w, &x, &None).err(), Some(TensorError::ShapeMismatch));
}

#[test]
fn adapter_fits_looks_at_both_factors() {
    let w = tensor(&[4, 6], &[0.0; 24]);
    let of = |a: &[usize], b: &[usize]| {
        Some(LoraAdapter {
            lora_a: Tensor::<F>::zeros(a.to_vec()).unwrap(),
            lora_b: Tensor::<F>::zeros(b.to_vec()).unwrap(),
        })
    };
    assert!(adapter_fits(&w, &None));
    assert!(adapter_fits(&w, &of(&[4, 2], &[2, 6])));
    assert!(adapter_fits(&w, &of(&[4, 0], &[0, 6])));
    assert!(!adapter_fits(&w, &of(&[5, 2], &[2, 6])));
    assert!(!adapter_fits(&w, &of(&[4, 2], &[3, 6])));
    assert!(!adapter_fits(&w, &of(&[4, 2], &[2, 1])));
    assert!(!adapter_fits(&w, &of(&[4, 2, 1], &[2, 6])));
    assert!(!adapter_fits(&w, &of(&[4, 2], &[12])));
    let vector = tensor(&[4], &[0.0; 4]);
    assert!(adapter_fits(&vector, &None));
    assert!(!adapter_fits(&vector, &of(&[4, 2], &[2, 6])));
}
