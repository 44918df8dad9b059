use vstd::prelude::*;
use crate::broadcasting::{broadcast_shape, lemma_broadcast_same};
use crate::elementwise::{broadcast_ok, map_silu_rel, zip_rel, BinaryOp};
use crate::error::TensorError;
use crate::matmul::{matmul_ok, matmul_rel, matmul_shape};
use crate::scalar::Scalar;
use crate::shape::lemma_size_2;
use crate::tensor::{Tensor, TensorView};

verus! {

/// A linear layer with a low-rank adapter: the frozen base weight, of the
/// dimensions `[in, out]`, and the adapter's two factors, of the dimensions
/// `[in, rank]` and `[rank, out]`.
pub struct LoraLinear<T> {
    pub weight: Tensor<T>,
    pub lora_a: Tensor<T>,
    pub lora_b: Tensor<T>,
}

/// What a linear layer with an adapter is in contracts.
pub struct LoraLinearView<T> {
    pub weight: TensorView<T>,
    pub lora_a: TensorView<T>,
    pub lora_b: TensorView<T>,
}

impl<T> View for LoraLinear<T> {
    type V = LoraLinearView<T>;

    open spec fn view(&self) -> LoraLinearView<T> {
        LoraLinearView { weight: self.weight@, lora_a: self.lora_a@, lora_b: self.lora_b@ }
    }
}

/// The factors `a` and `b` of an adapter go with a weight of the dimensions
/// `w`: all three are matrices, and the factors lead from the weight's rows
/// through the adapter's rank to the weight's columns.
pub open spec fn factors_fit(w: Seq<usize>, a: Seq<usize>, b: Seq<usize>) -> bool {
    &&& w.len() == 2
    &&& a.len() == 2
    &&& b.len() == 2
    &&& a[0] == w[0]
    &&& a[1] == b[0]
    &&& b[1] == w[1]
}

/// An input of the dimensions `x` can go through a layer with the weights
/// `w`, `a` and `b`: it can be multiplied with the base weight, the
/// adapter's factors go with the base weight, and the element count of the
/// product with the first factor fits in `usize`.
pub open spec fn lora_ok(x: Seq<usize>, w: Seq<usize>, a: Seq<usize>, b: Seq<usize>) -> bool {
    &&& matmul_ok(x, w)
    &&& factors_fit(w, a, b)
    &&& x[0] * a[1] <= usize::MAX
}

/// `r` is `x * weight + (x * lora_a) * lora_b`.
pub open spec fn lora_rel<T: Scalar>(l: LoraLinearView<T>, x: TensorView<T>, r: TensorView<T>) -> bool {
    exists|main: TensorView<T>, down: TensorView<T>, adapter: TensorView<T>|
        #[trigger] matmul_rel(x, l.weight, main) && #[trigger] matmul_rel(x, l.lora_a, down)
            && #[trigger] matmul_rel(down, l.lora_b, adapter) && zip_rel(BinaryOp::Add, main, adapter, r)
}

impl<T> LoraLinearView<T> {
    /// An input of the dimensions `x` can go through the layer.
    pub open spec fn accepts(self, x: Seq<usize>) -> bool {
        lora_ok(x, self.weight.shape, self.lora_a.shape, self.lora_b.shape)
    }

    /// The dimensions of what the layer makes of an input of the dimensions
    /// `x`.
    pub open spec fn out_shape(self, x: Seq<usize>) -> Seq<usize> {
        matmul_shape(x, self.weight.shape)
    }
}

/// Whether the factors `a` and `b` of an adapter go with the weight `w`.
fn factors_fit_weight<T>(w: &Tensor<T>, a: &Tensor<T>, b: &Tensor<T>) -> (r: bool)
    ensures
        r == factors_fit(w@.shape, a@.shape, b@.shape),
{
    let ws = w.shape();
    let sa = a.shape();
    let sb = b.shape();
    ws.len() == 2 && sa.len() == 2 && sb.len() == 2 && sa[0] == ws[0] && sa[1] == sb[0] && sb[1]
        == ws[1]
}

/// `x * w + (x * a) * b`.
fn lora_project<T: Scalar>(x: &Tensor<T>, w: &Tensor<T>, a: &Tensor<T>, b: &Tensor<T>) -> (r: Result<
    Tensor<T>,
    TensorError,
>)
    ensures
        match r {
            Ok(t) => lora_ok(x@.shape, w@.shape, a@.shape, b@.shape) && lora_rel(
                LoraLinearView { weight: w@, lora_a: a@, lora_b: b@ },
                x@,
                t@,
            ) && t@.shape == matmul_shape(x@.shape, w@.shape) && t@.wf(),
            Err(e) => e == TensorError::ShapeMismatch && !lora_ok(
                x@.shape,
                w@.shape,
                a@.shape,
                b@.shape,
            ),
        },
{
    let main = x.matmul(w)?;
    if !factors_fit_weight(w, a, b) {
        return Err(TensorError::ShapeMismatch);
    }
    let down = x.matmul(a)?;
    let share = down.matmul(b)?;
    proof {
        assert(share@.shape =~= main@.shape);
        lemma_broadcast_same(main@.shape);
        lemma_size_2(main@.shape);
    }
    let out = main.add(&share)?;
    proof {
        let l = LoraLinearView { weight: w@, lora_a: a@, lora_b: b@ };
        assert(matmul_rel(x@, l.weight, main@) && matmul_rel(x@, l.lora_a, down@) && matmul_rel(
            down@,
            l.lora_b,
            share@,
        ) && zip_rel(BinaryOp::Add, main@, share@, out@));
    }
    Ok(out)
}

impl<T: Scalar> LoraLinear<T> {
    pub fn new(weight: Tensor<T>, lora_a: Tensor<T>, lora_b: Tensor<T>) -> (r: Self)
        ensures
            r@.weight == weight@,
            r@.lora_a == lora_a@,
            r@.lora_b == lora_b@,
    {
        LoraLinear { weight, lora_a, lora_b }
    }

    /// The base path and the adapter path, added: `x * weight + (x *
    /// lora_a) * lora_b`.
    pub fn forward(&self, x: &Tensor<T>) -> (r: Result<Tensor<T>, TensorError>)
        ensures
            match r {
                Ok(t) => self@.accepts(x@.shape) && lora_rel(self@, x@, t@) && t@.shape
                    == self@.out_shape(x@.shape) && t@.wf(),
                Err(e) => e == TensorError::ShapeMismatch && !self@.accepts(x@.shape),
            },
    {
        lora_project(x, &self.weight, &self.lora_a, &self.lora_b)
    }
}

/// A low-rank adapter for a weight of the dimensions `[in, out]`: its two
/// factors, of the dimensions `[in, rank]` and `[rank, out]`.
pub struct LoraAdapter<T> {
    pub lora_a: Tensor<T>,
    pub lora_b: Tensor<T>,
}

/// What an adapter is in contracts.
pub struct LoraAdapterView<T> {
    pub lora_a: TensorView<T>,
    pub lora_b: TensorView<T>,
}

impl<T> View for LoraAdapter<T> {
    type V = LoraAdapterView<T>;

    open spec fn view(&self) -> LoraAdapterView<T> {
        LoraAdapterView { lora_a: self.lora_a@, lora_b: self.lora_b@ }
    }
}

/// What an adapter that may be absent is in contracts.
pub open spec fn adapter_view<T>(adapter: Option<LoraAdapter<T>>) -> Option<LoraAdapterView<T>> {
    match adapter {
        Some(a) => Some(a@),
        None => None,
    }
}

/// The adapter, where there is one, goes with a weight of the dimensions
/// `w`: its factors are matrices that lead from the weight's rows through
/// the adapter's rank to the weight's columns.
pub open spec fn adapter_fits_weight<T>(w: Seq<usize>, adapter: Option<LoraAdapterView<T>>) -> bool {
    match adapter {
        Some(ad) => factors_fit(w, ad.lora_a.shape, ad.lora_b.shape),
        None => true,
    }
}

/// The rank of the adapter, or 0 where there is none.
pub open spec fn adapter_rank<T>(adapter: Option<LoraAdapterView<T>>) -> usize {
    match adapter {
        Some(ad) => ad.lora_a.shape[1],
        None => 0,
    }
}

/// An input of the dimensions `x` can be projected by a weight of the
/// dimensions `w` and the adapter, where there is one.
pub open spec fn projection_ok<T>(x: Seq<usize>, w: Seq<usize>, adapter: Option<LoraAdapterView<T>>) -> bool {
    match adapter {
        Some(ad) => lora_ok(x, w, ad.lora_a.shape, ad.lora_b.shape),
        None => matmul_ok(x, w),
    }
}

/// `r` is the projection of `x` by the weight `w`: `x * w`, with the
/// adapter's `(x * lora_a) * lora_b` added where there is an adapter.
pub open spec fn projection_rel<T: Scalar>(
    x: TensorView<T>,
    w: TensorView<T>,
    adapter: Option<LoraAdapterView<T>>,
    r: TensorView<T>,
) -> bool {
    match adapter {
        Some(ad) => lora_rel(LoraLinearView { weight: w, lora_a: ad.lora_a, lora_b: ad.lora_b }, x, r),
        None => matmul_rel(x, w, r),
    }
}

/// Whether the adapter, where there is one, goes with the weight `w`.
pub fn adapter_fits<T>(w: &Tensor<T>, adapter: &Option<LoraAdapter<T>>) -> (r: bool)
    ensures
        r == adapter_fits_weight(w@.shape, adapter_view(*adapter)),
{
    match adapter {
        Some(ad) => factors_fit_weight(w, &ad.lora_a, &ad.lora_b),
        None => true,
    }
}

/// The rank of an adapter whose first factor is a matrix, or 0 where there
/// is no adapter.
pub(crate) fn rank_of<T>(adapter: &Option<LoraAdapter<T>>) -> (r: usize)
    requires
        adapter_view(*adapter) matches Some(ad) ==> ad.lora_a.shape.len() == 2,
    ensures
        r == adapter_rank(adapter_view(*adapter)),
{
    match adapter {
        Some(ad) => ad.lora_a.shape()[1],
        None => 0,
    }
}

/// The projection of `x` by the weight `w`, with the adapter's share added
/// where there is an adapter.
pub fn project<T: Scalar>(x: &Tensor<T>, w: &Tensor<T>, adapter: &Option<LoraAdapter<T>>) -> (r: Result<
    Tensor<T>,
    TensorError,
>)
    ensures
        match r {
            Ok(t) => projection_ok(x@.shape, w@.shape, adapter_view(*adapter)) && projection_rel(
                x@,
                w@,
                adapter_view(*adapter),
                t@,
            ) && t@.shape == matmul_shape(x@.shape, w@.shape) && t@.wf(),
            Err(e) => e == TensorError::ShapeMismatch && !projection_ok(
                x@.shape,
                w@.shape,
                adapter_view(*adapter),
            ),
        },
{
    match adapter {
        Some(ad) => lora_project(x, w, &ad.lora_a, &ad.lora_b),
        None => x.matmul(w),
    }
}

/// A gated feed-forward block whose three projections each carry an
/// adapter.
pub struct LoraMlp<T> {
    gate: LoraLinear<T>,
    up: LoraLinear<T>,
    down: LoraLinear<T>,
}

/// What a feed-forward block is in contracts.
pub struct LoraMlpView<T> {
    pub gate: LoraLinearView<T>,
    pub up: LoraLinearView<T>,
    pub down: LoraLinearView<T>,
}

impl<T> View for LoraMlp<T> {
    type V = LoraMlpView<T>;

    closed spec fn view(&self) -> LoraMlpView<T> {
        LoraMlpView { gate: self.gate@, up: self.up@, down: self.down@ }
    }
}

impl<T> LoraMlpView<T> {
    /// The dimensions of the hidden activation for an input of the
    /// dimensions `x`.
    pub open spec fn hidden_shape(self, x: Seq<usize>) -> Seq<usize> {
        broadcast_shape(self.gate.out_shape(x), self.up.out_shape(x))
    }

    /// An input of the dimensions `x` can go through the block.
    pub open spec fn accepts(self, x: Seq<usize>) -> bool {
        &&& self.gate.accepts(x)
        &&& self.up.accepts(x)
        &&& broadcast_ok(self.gate.out_shape(x), self.up.out_shape(x))
        &&& self.down.accepts(self.hidden_shape(x))
    }

    /// The dimensions of what the block makes of an input of the dimensions
    /// `x`.
    pub open spec fn out_shape(self, x: Seq<usize>) -> Seq<usize> {
        self.down.out_shape(self.hidden_shape(x))
    }
}

/// `r` is `down(silu(gate(x)) * up(x))`, each of the three a layer with its
/// adapter.
pub open spec fn lora_mlp_rel<T: Scalar>(m: LoraMlpView<T>, x: TensorView<T>, r: TensorView<T>) -> bool {
    exists|pre: TensorView<T>, gate: TensorView<T>, up: TensorView<T>, hidden: TensorView<T>|
        #[trigger] lora_rel(m.gate, x, pre) && #[trigger] map_silu_rel(pre, gate) && #[trigger] lora_rel(
            m.up,
            x,
            up,
        ) && #[trigger] zip_rel(BinaryOp::Mul, gate, up, hidden) && lora_rel(m.down, hidden, r)
}

impl<T: Scalar> LoraMlp<T> {
    /// A block from its three base weights and the two adapter factors of
    /// each.
    pub fn new(
        gate_w: Tensor<T>,
        up_w: Tensor<T>,
        down_w: Tensor<T>,
        lora_a_gate: Tensor<T>,
        lora_b_gate: Tensor<T>,
        lora_a_up: Tensor<T>,
        lora_b_up: Tensor<T>,
        lora_a_down: Tensor<T>,
        lora_b_down: Tensor<T>,
    ) -> (r: Self)
        ensures
            r@.gate == (LoraLinearView { weight: gate_w@, lora_a: lora_a_gate@, lora_b: lora_b_gate@ }),
            r@.up == (LoraLinearView { weight: up_w@, lora_a: lora_a_up@, lora_b: lora_b_up@ }),
            r@.down == (LoraLinearView { weight: down_w@, lora_a: lora_a_down@, lora_b: lora_b_down@ }),
    {
        LoraMlp {
            gate: LoraLinear::new(gate_w, lora_a_gate, lora_b_gate),
            up: LoraLinear::new(up_w, lora_a_up, lora_b_up),
            down: LoraLinear::new(down_w, lora_a_down, lora_b_down),
        }
    }

    /// The block applied to `x`: `down(silu(gate(x)) * up(x))`.
    pub fn forward(&self, x: &Tensor<T>) -> (r: Result<Tensor<T>, TensorError>)
        ensures
            match r {
                Ok(t) => self@.accepts(x@.shape) && lora_mlp_rel(self@, x@, t@) && t@.shape
                    == self@.out_shape(x@.shape) && t@.wf(),
                Err(e) => e == TensorError::ShapeMismatch && !self@.accepts(x@.shape),
            },
    {
        let pre = self.gate.forward(x)?;
        let gate = pre.silu();
        let up = self.up.forward(x)?;
        let hidden = gate.mul(&up)?;
        let out = self.down.forward(&hidden)?;
        proof {
            assert(lora_rel(self@.gate, x@, pre@) && map_silu_rel(pre@, gate@) && lora_rel(
                self@.up,
                x@,
                up@,
            ) && zip_rel(BinaryOp::Mul, gate@, up@, hidden@) && lora_rel(self@.down, hidden@, out@));
        }
        Ok(out)
    }
}

/// The query, key and value projections of an attention block, each with
/// its adapter.
pub struct LoraQkv<T> {
    q: LoraLinear<T>,
    k: LoraLinear<T>,
    v: LoraLinear<T>,
}

/// What the three projections are in contracts.
pub struct LoraQkvView<T> {
    pub q: LoraLinearView<T>,
    pub k: LoraLinearView<T>,
    pub v: LoraLinearView<T>,
}

impl<T> View for LoraQkv<T> {
    type V = LoraQkvView<T>;

    closed spec fn view(&self) -> LoraQkvView<T> {
        LoraQkvView { q: self.q@, k: self.k@, v: self.v@ }
    }
}

impl<T> LoraQkvView<T> {
    /// An input of the dimensions `x` can go through all three projections.
    pub open spec fn accepts(self, x: Seq<usize>) -> bool {
        self.q.accepts(x) && self.k.accepts(x) && self.v.accepts(x)
    }
}

impl<T: Scalar> LoraQkv<T> {
    /// The projections from their three base weights and the two adapter
    /// factors of each.
    pub fn new(
        q_w: Tensor<T>,
        k_w: Tensor<T>,
        v_w: Tensor<T>,
        lora_a_q: Tensor<T>,
        lora_b_q: Tensor<T>,
        lora_a_k: Tensor<T>,
        lora_b_k: Tensor<T>,
        lora_a_v: Tensor<T>,
        lora_b_v: Tensor<T>,
    ) -> (r: Self)
        ensures
            r@.q == (LoraLinearView { weight: q_w@, lora_a: lora_a_q@, lora_b: lora_b_q@ }),
            r@.k == (LoraLinearView { weight: k_w@, lora_a: lora_a_k@, lora_b: lora_b_k@ }),
            r@.v == (LoraLinearView { weight: v_w@, lora_a: lora_a_v@, lora_b: lora_b_v@ }),
    {
        LoraQkv {
            q: LoraLinear::new(q_w, lora_a_q, lora_b_q),
            k: LoraLinear::new(k_w, lora_a_k, lora_b_k),
            v: LoraLinear::new(v_w, lora_a_v, lora_b_v),
        }
    }

    /// The query, the key and the value that the three projections make of
    /// the one input `x`.
    pub fn forward(&self, x: &Tensor<T>) -> (r: Result<(Tensor<T>, Tensor<T>, Tensor<T>), TensorError>)
        ensures
            match r {
                Ok((q, k, v)) => self@.accepts(x@.shape) && lora_rel(self@.q, x@, q@) && lora_rel(
                    self@.k,
                    x@,
                    k@,
                ) && lora_rel(self@.v, x@, v@) && q@.wf() && k@.wf() && v@.wf(),
                Err(e) => e == TensorError::ShapeMismatch && !self@.accepts(x@.shape),
            },
    {
        let q = self.q.forward(x)?;
        let k = self.k.forward(x)?;
        let v = self.v.forward(x)?;
        Ok((q, k, v))
    }
}

} // verus!
