use ndarray::{Array, ArrayD, Axis, Ix2, Ix3, IxDyn};
use unsloth_rs::scalar::Scalar;
use unsloth_rs::tensor::Tensor;

#[derive(Clone, Copy, Debug, PartialEq)]
struct F(f32);

impl Scalar for F {
    fn from_usize(n: usize) -> Self {
        F(n as f32)
    }
    fn neg_infinity() -> Self {
        F(f32::NEG_INFINITY)
    }
    fn add(self, rhs: Self) -> Self {
        F(self.0 + rhs.0)
    }
    fn sub(self, rhs: Self) -> Self {
        F(self.0 - rhs.0)
    }
    fn mul(self, rhs: Self) -> Self {
        F(self.0 * rhs.0)
    }
    fn div(self, rhs: Self) -> Self {
        F(self.0 / rhs.0)
    }
    fn neg(self) -> Self {
        F(-self.0)
    }
    fn max(self, rhs: Self) -> Self {
        F(self.0.max(rhs.0))
    }
    fn exp(self) -> Self {
        F(self.0.exp())
    }
    fn sqrt(self) -> Self {
        F(self.0.sqrt())
    }
    fn sin(self) -> Self {
        F(self.0.sin())
    }
    fn cos(self) -> Self {
        F(self.0.cos())
    }
    fn powf(self, exponent: Self) -> Self {
        F(self.0.powf(exponent.0))
    }
}

fn tensor(shape: &[usize], values: &[f32]) -> Tensor<F> {
    Tensor::new(shape.to_vec(), values.iter().map(|&v| F(v)).collect()).unwrap()
}

fn values(t: &Tensor<F>) -> Vec<f32> {
    t.data().iter().map(|v| v.0).collect()
}

fn max_abs_diff(got: &[f32], expected: &[f32]) -> f32 {
    assert_eq!(got.len(), expected.len());
    got.iter().zip(expected.iter()).fold(0.0, |max, (a, b)| (a - b).abs().max(max))
}

fn array(shape: &[usize], seed: usize) -> ArrayD<f32> {
    let count: usize = shape.iter().product();
    let data: Vec<f32> =
        (0..count).map(|i| (((i * 31 + seed * 17) % 29) as f32 - 14.0) * 0.25).collect();
    Array::from_shape_vec(IxDyn(shape), data).unwrap()
}

fn to_tensor(a: &ArrayD<f32>) -> Tensor<F> {
    let data: Vec<f32> = a.iter().cloned().collect();
    tensor(a.shape(), &data)
}

fn assert_same(got: &Tensor<F>, expected: &ArrayD<f32>, tolerance: f32) {
    assert_eq!(&got.shape()[..], expected.shape());
    let flat: Vec<f32> = expected.iter().cloned().collect();
    assert!(max_abs_diff(&values(got), &flat) <= tolerance);
}

#[test]
fn matmul_agrees_with_ndarray() {
    for (m, k, n) in [(1, 1, 1), (2, 3, 4), (5, 1, 3), (3, 7, 2), (0, 3, 2), (2, 0, 3)] {
        let a = array(&[m, k], 1);
        let b = array(&[k, n], 2);
        let expected = a
            .view()
            .into_dimensionality::<Ix2>()
            .unwrap()
            .dot(&b.view().into_dimensionality::<Ix2>().unwrap())
            .into_dyn();
        let got = to_tensor(&a).matmul(&to_tensor(&b)).unwrap();
        assert_same(&got, &expected, 1e-4);
    }
}

#[test]
fn batched_matmul_agrees_with_ndarray() {
    let a = array(&[3, 2, 4], 3);
    let b = array(&[3, 4, 5], 4);
    let got = to_tensor(&a).batched_matmul(&to_tensor(&b)).unwrap();
    let a3 = a.view().into_dimensionality::<Ix3>().unwrap();
    let b3 = b.view().into_dimensionality::<Ix3>().unwrap();
    let mut expected = Array::zeros((3, 2, 5));
    for h in 0..3 {
        let product = a3.index_axis(Axis(0), h).dot(&b3.index_axis(Axis(0), h));
        expected.index_axis_mut(Axis(0), h).assign(&product);
    }
    assert_same(&got, &expected.into_dyn(), 1e-4);
}

#[test]
fn broadcasting_agrees_with_ndarray() {
    let pairs: [(&[usize], &[usize]); 9] = [
        (&[2, 3], &[2, 3]),
        (&[2, 3], &[3]),
        (&[3], &[2, 3]),
        (&[2, 1], &[1, 3]),
        (&[4, 1, 3], &[2, 1]),
        (&[2, 3, 4], &[]),
        (&[1], &[5]),
        (&[2, 1, 1, 2], &[3, 1]),
        (&[0, 3], &[3]),
    ];
    for (i, (sa, sb)) in pairs.iter().enumerate() {
        let a = array(sa, i);
        let b = array(sb, i + 10);
        let sum = &a + &b;
        let product = &a * &b;
        assert_same(&to_tensor(&a).add(&to_tensor(&b)).unwrap(), &sum, 0.0);
        assert_same(&to_tensor(&a).mul(&to_tensor(&b)).unwrap(), &product, 0.0);
    }
}

#[test]
fn broadcasting_refuses_what_ndarray_refuses() {
    let pairs: [(&[usize], &[usize]); 5] = [
        (&[2, 3], &[2]),
        (&[2, 3], &[3, 3]),
        (&[2, 3], &[2, 4]),
        (&[4, 2, 3], &[3, 3]),
        (&[0, 3], &[2]),
    ];
    for (sa, sb) in pairs.iter() {
        let a = array(sa, 1);
        let b = array(sb, 2);
        let longer = if sa.len() >= sb.len() { sa } else { sb };
        let stretched: Vec<usize> = (0..longer.len())
            .map(|i| {
                let from_end = longer.len() - 1 - i;
                let da = if from_end < sa.len() { sa[sa.len() - 1 - from_end] } else { 1 };
                let db = if from_end < sb.len() { sb[sb.len() - 1 - from_end] } else { 1 };
                if da == 1 {
                    db
                } else {
                    da
                }
            })
            .collect();
        let fits = a.broadcast(IxDyn(&stretched)).is_some() && b.broadcast(IxDyn(&stretched)).is_some();
        assert!(!fits);
        assert!(to_tensor(&a).add(&to_tensor(&b)).is_err());
    }
}

#[test]
fn silu_agrees_with_ndarray() {
    let a = array(&[3, 4], 5);
    let expected = a.mapv(|x| x / (1.0 + (-x).exp()));
    assert_same(&to_tensor(&a).silu(), &expected, 1e-6);
}

#[test]
fn rmsnorm_agrees_with_ndarray() {
    for shape in [vec![2, 3], vec![4, 1, 5], vec![6]] {
        let a = array(&shape, 6);
        let last = shape.len() - 1;
        let w = array(&[shape[last]], 7);
        let eps = 1e-5f32;
        let mean = a.mapv(|x| x * x).mean_axis(Axis(last)).unwrap();
        let scale = mean.mapv(|m| 1.0 / (m + eps).sqrt()).insert_axis(Axis(last));
        let expected = &(&a * &scale) * &w;
        let got = to_tensor(&a).rmsnorm(&to_tensor(&w), F(eps)).unwrap();
        assert_same(&got, &expected, 1e-5);
    }
}

#[test]
fn softmax_agrees_with_ndarray() {
    let shape = [2, 3, 4];
    let a = array(&shape, 8);
    for axis in 0..3 {
        let mut expected = a.clone();
        for mut lane in expected.lanes_mut(Axis(axis)) {
            let max = lane.iter().fold(f32::NEG_INFINITY, |m, &v| m.max(v));
            lane.mapv_inplace(|v| (v - max).exp());
            let sum = lane.sum();
            lane.mapv_inplace(|v| v / sum);
        }
        let got = to_tensor(&a).softmax(axis).unwrap();
        assert_same(&got, &expected, 1e-6);
    }
}

#[test]
fn layout_agrees_with_ndarray() {
    let a = array(&[2, 3, 4], 9);
    let t = to_tensor(&a);
    let swapped = a.clone().permuted_axes(IxDyn(&[1, 0, 2]));
    assert_same(&t.swap_axes01().unwrap(), &swapped.as_standard_layout().to_owned(), 0.0);
    let swapped = a.clone().permuted_axes(IxDyn(&[0, 2, 1]));
    assert_same(&t.swap_axes12().unwrap(), &swapped.as_standard_layout().to_owned(), 0.0);

    let repeated = a
        .clone()
        .into_shape(IxDyn(&[2, 1, 3, 4]))
        .unwrap()
        .broadcast(IxDyn(&[2, 5, 3, 4]))
        .unwrap()
        .to_owned()
        .into_shape(IxDyn(&[10, 3, 4]))
        .unwrap();
    assert_same(&t.repeat_heads(5).unwrap(), &repeated, 0.0);

    let m = array(&[3, 8], 10);
    let heads = m
        .clone()
        .into_shape(IxDyn(&[3, 4, 2]))
        .unwrap()
        .permuted_axes(IxDyn(&[1, 0, 2]))
        .as_standard_layout()
        .to_owned();
    let split = to_tensor(&m).split_heads(4, 2).unwrap();
    assert_same(&split, &heads, 0.0);
    assert_same(&split.merge_heads().unwrap(), &m, 0.0);

    let rows = [2usize, 0, 2, 1];
    let picked = m.select(Axis(0), &rows);
    assert_same(&to_tensor(&m).select_rows(&rows).unwrap(), &picked, 0.0);
    assert_same(&to_tensor(&m).reshape(vec![4, 6]).unwrap(), &m.clone().into_shape(IxDyn(&[4, 6])).unwrap(), 0.0);
}
