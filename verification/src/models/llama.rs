use vstd::prelude::*;
use vstd::arithmetic::div_mod::lemma_fundamental_div_mod;
use vstd::arithmetic::mul::lemma_mul_is_commutative;
use crate::broadcasting::lemma_broadcast_same;
use crate::elementwise::{div_scalar_rel, map_silu_rel, zip_rel, BinaryOp};
use crate::error::TensorError;
use crate::kernels::fast_lora::{
    adapter_fits, adapter_fits_weight, adapter_rank, adapter_view, project, projection_rel, rank_of,
    LoraAdapter, LoraAdapterView,
};
use crate::layout::{
    all_zero, merge_heads_rel, merge_ok, repeat_ok, repeat_rel, rows_in_range, select_error,
    select_rel, shape2, split_heads_rel, split_ok, swap12_rel,
};
use crate::matmul::{batched_matmul_ok, batched_matmul_rel, matmul_ok, matmul_rel};
use crate::rmsnorm::{rmsnorm_ok, rmsnorm_rel};
use crate::rope::{rope_tokens_error, rope_tokens_rel};
use crate::scalar::Scalar;
use crate::shape::{lemma_size_1, lemma_size_2};
use crate::softmax::{softmax_ok, softmax_rel};
use crate::tensor::{Tensor, TensorView};

verus! {

/// The largest position that the rotary embedding turns a row by.
pub const MAX_SEQ_LEN: usize = 2048;

/// The base of the rotary embedding's frequencies.
pub const ROPE_THETA: usize = 10000;

/// The inverse of the epsilon that the normalisations add under the root.
pub const NORM_EPS_INVERSE: usize = 100000;

/// A matrix of zeros that stands where a weight has yet to be set.
pub open spec fn is_placeholder<T: Scalar>(t: TensorView<T>) -> bool {
    t.shape == seq![1usize, 1usize] && t.wf() && all_zero(t)
}

fn placeholder<T: Scalar>() -> (r: Tensor<T>)
    ensures
        is_placeholder(r@),
{
    let zero = T::from_usize(0);
    let mut data: Vec<T> = Vec::new();
    data.push(zero);
    Tensor::from_parts(shape2(1, 1), data)
}

/// A matrix of `rows` rows of `cols` zeros.
pub open spec fn is_zero_matrix<T: Scalar>(t: TensorView<T>, rows: usize, cols: usize) -> bool {
    t.shape == seq![rows, cols] && t.wf() && all_zero(t)
}

/// A vector of `len` zeros.
pub open spec fn is_zero_vector<T: Scalar>(t: TensorView<T>, len: usize) -> bool {
    t.shape == seq![len] && t.wf() && all_zero(t)
}

fn zero_matrix<T: Scalar>(rows: usize, cols: usize) -> (r: Tensor<T>)
    requires
        rows * cols <= usize::MAX,
    ensures
        is_zero_matrix(r@, rows, cols),
{
    match Tensor::zeros(shape2(rows, cols)) {
        Ok(t) => t,
        Err(_) => placeholder(),
    }
}

fn zero_vector<T: Scalar>(len: usize) -> (r: Tensor<T>)
    ensures
        is_zero_vector(r@, len),
{
    let mut shape: Vec<usize> = Vec::new();
    shape.push(len);
    proof {
        assert(shape@ =~= seq![len]);
        lemma_size_1(shape@);
    }
    match Tensor::zeros(shape) {
        Ok(t) => t,
        Err(_) => placeholder(),
    }
}

/// The head counts and the head width go together: the query heads divide
/// evenly among at least one key/value head, and the width of all query
/// heads side by side fits in `usize`.
pub open spec fn heads_ok(n_heads: usize, n_kv_heads: usize, head_dim: usize) -> bool {
    &&& 1 <= n_kv_heads <= n_heads
    &&& n_heads % n_kv_heads == 0
    &&& n_heads * head_dim <= usize::MAX
}

/// A multi-head attention block with grouped key/value heads. Each of the
/// query, key and value projections may carry a low-rank adapter.
pub struct LlamaAttention<T> {
    pub wq: Tensor<T>,
    pub wk: Tensor<T>,
    pub wv: Tensor<T>,
    pub wo: Tensor<T>,
    pub n_heads: usize,
    pub n_kv_heads: usize,
    pub head_dim: usize,
    pub rotary_dim: usize,
    pub lora_q: Option<LoraAdapter<T>>,
    pub lora_k: Option<LoraAdapter<T>>,
    pub lora_v: Option<LoraAdapter<T>>,
}

/// What an attention block is in contracts.
pub struct AttentionView<T> {
    pub wq: TensorView<T>,
    pub wk: TensorView<T>,
    pub wv: TensorView<T>,
    pub wo: TensorView<T>,
    pub n_heads: usize,
    pub n_kv_heads: usize,
    pub head_dim: usize,
    pub rotary_dim: usize,
    pub lora_q: Option<LoraAdapterView<T>>,
    pub lora_k: Option<LoraAdapterView<T>>,
    pub lora_v: Option<LoraAdapterView<T>>,
}

impl<T> View for LlamaAttention<T> {
    type V = AttentionView<T>;

    open spec fn view(&self) -> AttentionView<T> {
        AttentionView {
            wq: self.wq@,
            wk: self.wk@,
            wv: self.wv@,
            wo: self.wo@,
            n_heads: self.n_heads,
            n_kv_heads: self.n_kv_heads,
            head_dim: self.head_dim,
            rotary_dim: self.rotary_dim,
            lora_q: adapter_view(self.lora_q),
            lora_k: adapter_view(self.lora_k),
            lora_v: adapter_view(self.lora_v),
        }
    }
}

impl<T> AttentionView<T> {
    /// The width of the input rows.
    pub open spec fn in_dim(self) -> usize {
        self.wq.shape[0]
    }

    /// The width of the output rows.
    pub open spec fn out_dim(self) -> usize {
        self.wo.shape[1]
    }

    /// The block's parts go together: the head counts do, the rotary
    /// dimension is within a head, the query and output weights are as wide
    /// as all query heads, the key and value weights as wide as all
    /// key/value heads, the three projections take rows of one width, and
    /// each adapter goes with its weight.
    pub open spec fn consistent(self) -> bool {
        &&& heads_ok(self.n_heads, self.n_kv_heads, self.head_dim)
        &&& self.rotary_dim <= self.head_dim
        &&& self.wq.shape.len() == 2
        &&& self.wk.shape.len() == 2
        &&& self.wv.shape.len() == 2
        &&& self.wo.shape.len() == 2
        &&& self.wq.shape[1] == self.n_heads * self.head_dim
        &&& self.wk.shape[1] == self.n_kv_heads * self.head_dim
        &&& self.wv.shape[1] == self.n_kv_heads * self.head_dim
        &&& self.wo.shape[0] == self.n_heads * self.head_dim
        &&& self.wk.shape[0] == self.wq.shape[0]
        &&& self.wv.shape[0] == self.wq.shape[0]
        &&& adapter_fits_weight(self.wq.shape, self.lora_q)
        &&& adapter_fits_weight(self.wk.shape, self.lora_k)
        &&& adapter_fits_weight(self.wv.shape, self.lora_v)
    }

    /// A sequence of `seq` rows can be attended over without an element
    /// count leaving `usize`: that of the projections, of the adapters'
    /// inner products, of the scores, and of the output.
    pub open spec fn fits(self, seq: usize) -> bool {
        &&& seq * (self.n_heads * self.head_dim) <= usize::MAX
        &&& seq * adapter_rank(self.lora_q) <= usize::MAX
        &&& seq * adapter_rank(self.lora_k) <= usize::MAX
        &&& seq * adapter_rank(self.lora_v) <= usize::MAX
        &&& self.n_heads * seq * seq <= usize::MAX
        &&& seq * self.out_dim() <= usize::MAX
    }

    /// The error that the block answers an input of the dimensions `x`
    /// with, if any. The block's own consistency is looked at first, then
    /// the input's shape, then whether the position of any row exceeds
    /// `MAX_SEQ_LEN`.
    pub open spec fn error(self, x: Seq<usize>) -> Option<TensorError> {
        if !self.consistent() {
            Some(TensorError::ConfigurationInvalid)
        } else if !(x.len() == 2 && x[1] == self.in_dim() && self.fits(x[0])) {
            Some(TensorError::ShapeMismatch)
        } else if x[0] > 0 && x[0] - 1 > MAX_SEQ_LEN {
            Some(TensorError::IndexOutOfRange)
        } else {
            None
        }
    }
}

/// `turned` is the projection `p` after the rotary embedding over
/// `rotary_dim` features, row `t` turned by the angles of position `t`.
pub open spec fn rotary_rel<T: Scalar>(p: TensorView<T>, rotary_dim: usize, turned: TensorView<T>) -> bool {
    exists|theta: T|
        call_ensures(T::from_usize, (ROPE_THETA,), theta) && #[trigger] rope_tokens_rel(
            p,
            0,
            rotary_dim,
            theta,
            turned,
        )
}

/// `turned` is the projection `p` after the rotary embedding, or `p` itself
/// where `rotary` holds no dimension.
pub open spec fn turned_rel<T: Scalar>(
    p: TensorView<T>,
    rotary: Option<usize>,
    turned: TensorView<T>,
) -> bool {
    match rotary {
        Some(rotary_dim) => rotary_rel(p, rotary_dim, turned),
        None => turned == p,
    }
}

/// `r` holds the heads of the projection of `x` by the weight `w` and its
/// adapter, where there is one: `heads` heads of `head_dim` features, one
/// after the other. Where `rotary` holds a dimension, the rows of the
/// projection are first turned, row `t` by the angles of position `t`.
pub open spec fn head_projection_rel<T: Scalar>(
    x: TensorView<T>,
    w: TensorView<T>,
    adapter: Option<LoraAdapterView<T>>,
    heads: usize,
    head_dim: usize,
    rotary: Option<usize>,
    r: TensorView<T>,
) -> bool {
    exists|p: TensorView<T>, turned: TensorView<T>|
        #[trigger] projection_rel(x, w, adapter, p) && turned_rel(p, rotary, turned)
            && #[trigger] split_heads_rel(turned, heads, head_dim, r)
}

/// `root` is an outcome of the square root of the head width.
pub open spec fn head_scale_rel<T: Scalar>(head_dim: usize, root: T) -> bool {
    exists|width: T| call_ensures(T::from_usize, (head_dim,), width) && call_ensures(T::sqrt, (width,), root)
}

/// `r` holds the attention weights of the queries `q` over the keys `k`,
/// head by head: the softmax, along the keys, of `q * k^T / sqrt(head_dim)`.
pub open spec fn attention_weights_rel<T: Scalar>(
    q: TensorView<T>,
    k: TensorView<T>,
    head_dim: usize,
    r: TensorView<T>,
) -> bool {
    exists|kt: TensorView<T>, scores: TensorView<T>, root: T, scaled: TensorView<T>|
        #[trigger] swap12_rel(k, kt) && #[trigger] batched_matmul_rel(q, kt, scores) && head_scale_rel(
            head_dim,
            root,
        ) && #[trigger] div_scalar_rel(scores, root, scaled) && softmax_rel(scaled, 2, r)
}

/// `r` is the attention of the block over the rows of `x`: the queries,
/// keys and values are projected and split into heads, queries and keys
/// after the rotary embedding; each key/value head serves the query heads
/// of its group; the values are averaged by the attention weights; and the
/// heads, side by side again, go through the output projection.
pub open spec fn attention_rel<T: Scalar>(a: AttentionView<T>, x: TensorView<T>, r: TensorView<T>) -> bool {
    let n_rep = (a.n_heads / a.n_kv_heads) as usize;
    exists|
        q: TensorView<T>,
        k: TensorView<T>,
        keys: TensorView<T>,
        v: TensorView<T>,
        values: TensorView<T>,
        weights: TensorView<T>,
        mixed: TensorView<T>,
        merged: TensorView<T>,
    |
        #[trigger] head_projection_rel(x, a.wq, a.lora_q, a.n_heads, a.head_dim, Some(a.rotary_dim), q)
            && #[trigger] head_projection_rel(
            x,
            a.wk,
            a.lora_k,
            a.n_kv_heads,
            a.head_dim,
            Some(a.rotary_dim),
            k,
        ) && #[trigger] repeat_rel(k, n_rep, keys) && #[trigger] head_projection_rel(
            x,
            a.wv,
            a.lora_v,
            a.n_kv_heads,
            a.head_dim,
            None,
            v,
        ) && #[trigger] repeat_rel(v, n_rep, values) && #[trigger] attention_weights_rel(
            q,
            keys,
            a.head_dim,
            weights,
        ) && #[trigger] batched_matmul_rel(weights, values, mixed) && #[trigger] merge_heads_rel(
            mixed,
            merged,
        ) && matmul_rel(merged, a.wo, r)
}

impl<T: Scalar> LlamaAttention<T> {
    /// A block for `n_heads` query heads and `n_kv_heads` key/value heads of
    /// `head_dim` features, rotary over the whole head, with placeholders
    /// for its weights and without adapters. Head counts that do not go
    /// together are refused.
    pub fn new(n_heads: usize, n_kv_heads: usize, head_dim: usize) -> (r: Result<Self, TensorError>)
        ensures
            match r {
                Ok(a) => {
                    &&& heads_ok(n_heads, n_kv_heads, head_dim)
                    &&& a.n_heads == n_heads
                    &&& a.n_kv_heads == n_kv_heads
                    &&& a.head_dim == head_dim
                    &&& a.rotary_dim == head_dim
                    &&& is_placeholder(a.wq@)
                    &&& is_placeholder(a.wk@)
                    &&& is_placeholder(a.wv@)
                    &&& is_placeholder(a.wo@)
                    &&& a.lora_q is None
                    &&& a.lora_k is None
                    &&& a.lora_v is None
                },
                Err(e) => e == TensorError::ConfigurationInvalid && !heads_ok(
                    n_heads,
                    n_kv_heads,
                    head_dim,
                ),
            },
    {
        if n_kv_heads == 0 || n_kv_heads > n_heads || n_heads % n_kv_heads != 0 {
            return Err(TensorError::ConfigurationInvalid);
        }
        if n_heads.checked_mul(head_dim).is_none() {
            return Err(TensorError::ConfigurationInvalid);
        }
        Ok(
            LlamaAttention {
                wq: placeholder(),
                wk: placeholder(),
                wv: placeholder(),
                wo: placeholder(),
                n_heads,
                n_kv_heads,
                head_dim,
                rotary_dim: head_dim,
                lora_q: None,
                lora_k: None,
                lora_v: None,
            },
        )
    }

    /// Whether the block's parts go together.
    pub fn is_consistent(&self) -> (r: bool)
        ensures
            r == self@.consistent(),
    {
        if self.n_kv_heads == 0 || self.n_kv_heads > self.n_heads || self.n_heads % self.n_kv_heads
            != 0 {
            return false;
        }
        if self.rotary_dim > self.head_dim {
            return false;
        }
        let q_width = match self.n_heads.checked_mul(self.head_dim) {
            Some(w) => w,
            None => {
                return false;
            },
        };
        proof {
            assert(self.n_kv_heads * self.head_dim <= self.n_heads * self.head_dim) by (nonlinear_arith)
                requires
                    self.n_kv_heads <= self.n_heads,
            ;
        }
        let kv_width = self.n_kv_heads * self.head_dim;
        let q = self.wq.shape();
        let k = self.wk.shape();
        let v = self.wv.shape();
        let o = self.wo.shape();
        q.len() == 2 && k.len() == 2 && v.len() == 2 && o.len() == 2 && q[1] == q_width && k[1]
            == kv_width && v[1] == kv_width && o[0] == q_width && k[0] == q[0] && v[0] == q[0]
            && adapter_fits(&self.wq, &self.lora_q) && adapter_fits(&self.wk, &self.lora_k)
            && adapter_fits(&self.wv, &self.lora_v)
    }

    /// Whether a sequence of `seq` rows can be attended over by the block,
    /// whose parts go together, without an element count leaving `usize`.
    pub(crate) fn fits(&self, seq: usize) -> (r: bool)
        requires
            self@.consistent(),
        ensures
            r == self@.fits(seq),
    {
        let width = self.n_heads * self.head_dim;
        if seq.checked_mul(width).is_none() {
            return false;
        }
        if seq.checked_mul(rank_of(&self.lora_q)).is_none() || seq.checked_mul(
            rank_of(&self.lora_k),
        ).is_none() || seq.checked_mul(rank_of(&self.lora_v)).is_none() {
            return false;
        }
        match self.n_heads.checked_mul(seq) {
            Some(ns) => {
                if ns.checked_mul(seq).is_none() {
                    return false;
                }
            },
            None => {
                proof {
                    assert(self.n_heads * seq * seq >= self.n_heads * seq) by (nonlinear_arith)
                        requires
                            self.n_heads * seq > 0,
                            seq >= 0,
                            self.n_heads >= 0,
                    ;
                }
                return false;
            },
        }
        seq.checked_mul(self.wo.shape()[1]).is_some()
    }

    /// The error that `forward` would answer `x` with, if any.
    pub fn check(&self, x: &Tensor<T>) -> (r: Option<TensorError>)
        ensures
            r == self@.error(x@.shape),
    {
        if !self.is_consistent() {
            return Some(TensorError::ConfigurationInvalid);
        }
        let xs = x.shape();
        if xs.len() != 2 {
            return Some(TensorError::ShapeMismatch);
        }
        let seq = xs[0];
        if xs[1] != self.wq.shape()[0] || !self.fits(seq) {
            return Some(TensorError::ShapeMismatch);
        }
        if seq > 0 && seq - 1 > MAX_SEQ_LEN {
            return Some(TensorError::IndexOutOfRange);
        }
        None
    }

    /// The heads of the projection of `x` by the weight `w`, which is as
    /// wide as `heads` heads, and its adapter, where there is one; with the
    /// rows turned first where `rotate` is set.
    fn head_projection(
        &self,
        x: &Tensor<T>,
        w: &Tensor<T>,
        adapter: &Option<LoraAdapter<T>>,
        heads: usize,
        rotate: bool,
    ) -> (r: Result<Tensor<T>, TensorError>)
        requires
            self@.error(x@.shape) is None,
            w@.shape.len() == 2,
            w@.shape[0] == x@.shape[1],
            w@.shape[1] == heads * self.head_dim,
            1 <= heads <= self.n_heads,
            adapter_fits_weight(w@.shape, adapter_view(*adapter)),
            x@.shape[0] * adapter_rank(adapter_view(*adapter)) <= usize::MAX,
        ensures
            match r {
                Ok(t) => head_projection_rel(
                    x@,
                    w@,
                    adapter_view(*adapter),
                    heads,
                    self.head_dim,
                    if rotate {
                        Some(self.rotary_dim)
                    } else {
                        None
                    },
                    t@,
                ) && t@.shape == seq![heads, x@.shape[0], self.head_dim] && t@.wf(),
                Err(_) => false,
            },
    {
        let ghost seq = x@.shape[0] as int;
        let ghost hd = self.head_dim as int;
        proof {
            assert(heads * hd <= self.n_heads * hd && seq * (heads * hd) <= seq * (self.n_heads * hd) && hd
                <= heads * hd) by (nonlinear_arith)
                requires
                    1 <= heads <= self.n_heads,
                    0 <= hd,
                    0 <= seq,
            ;
            assert(matmul_ok(x@.shape, w@.shape));
        }
        let p = project(x, w, adapter)?;
        if rotate {
            let theta = T::from_usize(ROPE_THETA);
            proof {
                assert(rope_tokens_error(p@.shape, 0, self.rotary_dim, MAX_SEQ_LEN) is None);
            }
            let turned = p.rope_tokens(0, self.rotary_dim, MAX_SEQ_LEN, theta)?;
            proof {
                assert(split_ok(turned@.shape, heads, self.head_dim));
            }
            let out = turned.split_heads(heads, self.head_dim)?;
            proof {
                assert(call_ensures(T::from_usize, (ROPE_THETA,), theta) && rope_tokens_rel(
                    p@,
                    0,
                    self.rotary_dim,
                    theta,
                    turned@,
                ));
                assert(rotary_rel(p@, self.rotary_dim, turned@));
                assert(projection_rel(x@, w@, adapter_view(*adapter), p@) && split_heads_rel(
                    turned@,
                    heads,
                    self.head_dim,
                    out@,
                ));
            }
            Ok(out)
        } else {
            proof {
                assert(split_ok(p@.shape, heads, self.head_dim));
            }
            let out = p.split_heads(heads, self.head_dim)?;
            proof {
                assert(turned_rel(p@, None, p@));
                assert(projection_rel(x@, w@, adapter_view(*adapter), p@) && split_heads_rel(
                    p@,
                    heads,
                    self.head_dim,
                    out@,
                ));
            }
            Ok(out)
        }
    }

    /// The attention weights of the queries `q` over the keys `k`, both
    /// given head by head.
    fn attention_weights(&self, q: &Tensor<T>, k: &Tensor<T>) -> (r: Result<Tensor<T>, TensorError>)
        requires
            q@.shape.len() == 3,
            q@.shape[2] == self.head_dim,
            k@.shape == q@.shape,
            q@.shape[0] * q@.shape[1] * q@.shape[1] <= usize::MAX,
        ensures
            match r {
                Ok(t) => attention_weights_rel(q@, k@, self.head_dim, t@) && t@.shape
                    == seq![q@.shape[0], q@.shape[1], q@.shape[1]] && t@.wf(),
                Err(_) => false,
            },
    {
        let kt = k.swap_axes12()?;
        proof {
            assert(batched_matmul_ok(q@.shape, kt@.shape));
        }
        let scores = q.batched_matmul(&kt)?;
        let width = T::from_usize(self.head_dim);
        let root = width.sqrt();
        let scaled = scores.div_scalar(root);
        proof {
            assert(softmax_ok(scaled@.shape, 2));
        }
        let out = scaled.softmax(2)?;
        proof {
            assert(call_ensures(T::from_usize, (self.head_dim,), width) && call_ensures(
                T::sqrt,
                (width,),
                root,
            ));
            assert(head_scale_rel(self.head_dim, root));
            assert(swap12_rel(k@, kt@) && batched_matmul_rel(q@, kt@, scores@) && div_scalar_rel(
                scores@,
                root,
                scaled@,
            ));
        }
        Ok(out)
    }

    /// The attention of the block over the rows of `x`, a matrix with one
    /// row for each token.
    pub fn forward(&self, x: &Tensor<T>) -> (r: Result<Tensor<T>, TensorError>)
        ensures
            match r {
                Ok(t) => self@.error(x@.shape) is None && attention_rel(self@, x@, t@) && t@.shape
                    == seq![x@.shape[0], self@.out_dim()] && t@.wf(),
                Err(e) => self@.error(x@.shape) == Some(e),
            },
    {
        if let Some(e) = self.check(x) {
            return Err(e);
        }
        let n_rep = self.n_heads / self.n_kv_heads;
        let ghost n = self.n_heads as int;
        let ghost g = self.n_kv_heads as int;
        let ghost hd = self.head_dim as int;
        let ghost seq = x@.shape[0] as int;
        proof {
            lemma_fundamental_div_mod(n, g);
            assert(g * n_rep == n);
            assert(n * seq * hd == seq * (n * hd)) by (nonlinear_arith);
        }
        let q = self.head_projection(x, &self.wq, &self.lora_q, self.n_heads, true)?;
        let k = self.head_projection(x, &self.wk, &self.lora_k, self.n_kv_heads, true)?;
        proof {
            assert(repeat_ok(k@.shape, n_rep));
        }
        let keys = k.repeat_heads(n_rep)?;
        let v = self.head_projection(x, &self.wv, &self.lora_v, self.n_kv_heads, false)?;
        proof {
            assert(repeat_ok(v@.shape, n_rep));
        }
        let values = v.repeat_heads(n_rep)?;
        proof {
            assert(keys@.shape =~= q@.shape);
        }
        let weights = self.attention_weights(&q, &keys)?;
        proof {
            assert(batched_matmul_ok(weights@.shape, values@.shape));
        }
        let mixed = weights.batched_matmul(&values)?;
        proof {
            assert(merge_ok(mixed@.shape));
        }
        let merged = mixed.merge_heads()?;
        proof {
            assert(matmul_ok(merged@.shape, self.wo@.shape));
        }
        let out = merged.matmul(&self.wo)?;
        proof {
            assert(head_projection_rel(
                x@,
                self@.wq,
                self@.lora_q,
                self.n_heads,
                self.head_dim,
                Some(self.rotary_dim),
                q@,
            ) && head_projection_rel(
                x@,
                self@.wk,
                self@.lora_k,
                self.n_kv_heads,
                self.head_dim,
                Some(self.rotary_dim),
                k@,
            ) && repeat_rel(k@, n_rep, keys@) && head_projection_rel(
                x@,
                self@.wv,
                self@.lora_v,
                self.n_kv_heads,
                self.head_dim,
                None,
                v@,
            ) && repeat_rel(v@, n_rep, values@) && attention_weights_rel(
                q@,
                keys@,
                self.head_dim,
                weights@,
            ) && batched_matmul_rel(weights@, values@, mixed@) && merge_heads_rel(mixed@, merged@)
                && matmul_rel(merged@, self@.wo, out@));
        }
        Ok(out)
    }
}

/// `e` is an outcome of `1 / 100000`, the epsilon of the normalisations.
pub open spec fn norm_eps_rel<T: Scalar>(e: T) -> bool {
    exists|one: T, big: T|
        call_ensures(T::from_usize, (1usize,), one) && call_ensures(T::from_usize, (NORM_EPS_INVERSE,), big)
            && #[trigger] call_ensures(T::div, (one, big), e)
}

/// The epsilon of the normalisations.
pub fn norm_eps<T: Scalar>() -> (e: T)
    ensures
        norm_eps_rel(e),
{
    let one = T::from_usize(1);
    let big = T::from_usize(NORM_EPS_INVERSE);
    let e = one.div(big);
    proof {
        assert(call_ensures(T::from_usize, (1usize,), one) && call_ensures(
            T::from_usize,
            (NORM_EPS_INVERSE,),
            big,
        ) && call_ensures(T::div, (one, big), e));
    }
    e
}

/// One layer of the decoder: attention and a gated feed-forward block, each
/// behind a normalisation and each added to what it was given. The
/// feed-forward weights are `w1` for the gating, `w3` for the up projection
/// and `w2` for the down projection; each may carry a low-rank adapter.
pub struct LlamaDecoderLayer<T> {
    self_attn: LlamaAttention<T>,
    attention_norm: Tensor<T>,
    ffn_norm: Tensor<T>,
    w1: Tensor<T>,
    w2: Tensor<T>,
    w3: Tensor<T>,
    lora_w1: Option<LoraAdapter<T>>,
    lora_w2: Option<LoraAdapter<T>>,
    lora_w3: Option<LoraAdapter<T>>,
}

/// What a decoder layer is in contracts.
pub struct DecoderLayerView<T> {
    pub self_attn: AttentionView<T>,
    pub attention_norm: TensorView<T>,
    pub ffn_norm: TensorView<T>,
    pub w1: TensorView<T>,
    pub w2: TensorView<T>,
    pub w3: TensorView<T>,
    pub lora_w1: Option<LoraAdapterView<T>>,
    pub lora_w2: Option<LoraAdapterView<T>>,
    pub lora_w3: Option<LoraAdapterView<T>>,
}

impl<T> View for LlamaDecoderLayer<T> {
    type V = DecoderLayerView<T>;

    closed spec fn view(&self) -> DecoderLayerView<T> {
        DecoderLayerView {
            self_attn: self.self_attn@,
            attention_norm: self.attention_norm@,
            ffn_norm: self.ffn_norm@,
            w1: self.w1@,
            w2: self.w2@,
            w3: self.w3@,
            lora_w1: adapter_view(self.lora_w1),
            lora_w2: adapter_view(self.lora_w2),
            lora_w3: adapter_view(self.lora_w3),
        }
    }
}

impl<T> DecoderLayerView<T> {
    /// The width of the rows that the layer takes and gives.
    pub open spec fn hidden(self) -> usize {
        self.self_attn.in_dim()
    }

    /// The width of the feed-forward block's hidden rows.
    pub open spec fn ffn_dim(self) -> usize {
        self.w1.shape[1]
    }

    /// The layer's parts go together: the attention block does and gives
    /// rows as wide as it takes, both normalisations have one weight for
    /// each place of a row, the feed-forward weights lead from the rows to
    /// the hidden rows and back, and each adapter goes with its weight.
    pub open spec fn consistent(self) -> bool {
        &&& self.self_attn.consistent()
        &&& self.self_attn.out_dim() == self.hidden()
        &&& self.attention_norm.shape == seq![self.hidden()]
        &&& self.ffn_norm.shape == seq![self.hidden()]
        &&& self.w1.shape.len() == 2
        &&& self.w1.shape[0] == self.hidden()
        &&& self.w3.shape == self.w1.shape
        &&& self.w2.shape == seq![self.ffn_dim(), self.hidden()]
        &&& adapter_fits_weight(self.w1.shape, self.lora_w1)
        &&& adapter_fits_weight(self.w2.shape, self.lora_w2)
        &&& adapter_fits_weight(self.w3.shape, self.lora_w3)
    }

    /// A sequence of `seq` rows can go through the layer without an element
    /// count leaving `usize`.
    pub open spec fn fits(self, seq: usize) -> bool {
        &&& self.self_attn.fits(seq)
        &&& seq * self.ffn_dim() <= usize::MAX
        &&& seq * adapter_rank(self.lora_w1) <= usize::MAX
        &&& seq * adapter_rank(self.lora_w2) <= usize::MAX
        &&& seq * adapter_rank(self.lora_w3) <= usize::MAX
    }

    /// The error that the layer answers an input of the dimensions `x`
    /// with, if any. The layer's own consistency is looked at first, then
    /// the input's shape, then whether the position of any row exceeds
    /// `MAX_SEQ_LEN`.
    pub open spec fn error(self, x: Seq<usize>) -> Option<TensorError> {
        if !self.consistent() {
            Some(TensorError::ConfigurationInvalid)
        } else if !(x.len() == 2 && x[1] == self.hidden() && self.fits(x[0])) {
            Some(TensorError::ShapeMismatch)
        } else if x[0] > 0 && x[0] - 1 > MAX_SEQ_LEN {
            Some(TensorError::IndexOutOfRange)
        } else {
            None
        }
    }
}

/// `r` is the gated feed-forward block applied to `x`:
/// `(silu(x * w1) * (x * w3)) * w2`, each of the three products with its
/// adapter's share where there is an adapter.
pub open spec fn feed_forward_rel<T: Scalar>(
    l: DecoderLayerView<T>,
    x: TensorView<T>,
    r: TensorView<T>,
) -> bool {
    exists|pre: TensorView<T>, gate: TensorView<T>, up: TensorView<T>, hidden: TensorView<T>|
        #[trigger] projection_rel(x, l.w1, l.lora_w1, pre) && #[trigger] map_silu_rel(pre, gate)
            && #[trigger] projection_rel(x, l.w3, l.lora_w3, up) && #[trigger] zip_rel(
            BinaryOp::Mul,
            gate,
            up,
            hidden,
        ) && projection_rel(hidden, l.w2, l.lora_w2, r)
}

/// `r` is the layer applied to `x`: with `h = x + attention(norm(x))`, it
/// is `h + feed_forward(norm(h))`.
pub open spec fn decoder_rel<T: Scalar>(l: DecoderLayerView<T>, x: TensorView<T>, r: TensorView<T>) -> bool {
    exists|
        eps: T,
        normed: TensorView<T>,
        attended: TensorView<T>,
        h: TensorView<T>,
        h_normed: TensorView<T>,
        fed: TensorView<T>,
    |
        norm_eps_rel(eps) && #[trigger] rmsnorm_rel(x, l.attention_norm, eps, normed)
            && #[trigger] attention_rel(l.self_attn, normed, attended) && #[trigger] zip_rel(
            BinaryOp::Add,
            x,
            attended,
            h,
        ) && #[trigger] rmsnorm_rel(h, l.ffn_norm, eps, h_normed) && #[trigger] feed_forward_rel(
            l,
            h_normed,
            fed,
        ) && zip_rel(BinaryOp::Add, h, fed, r)
}

/// The dimensions of a layer go together: the head counts do, and the
/// element count of a weight that leads from the rows to rows of the same
/// width fits in `usize`.
pub open spec fn layer_dims_ok(n_heads: usize, n_kv_heads: usize, head_dim: usize) -> bool {
    heads_ok(n_heads, n_kv_heads, head_dim) && (n_heads * head_dim) * (n_heads * head_dim)
        <= usize::MAX
}

/// A layer of zeros for `n_heads` query heads and `n_kv_heads` key/value
/// heads of `head_dim` features: rows as wide as all query heads side by
/// side go in and come out, the hidden rows of the feed-forward block are
/// as wide, rotary is over the whole head, every weight is zero, and there
/// are no adapters.
pub open spec fn is_zero_layer<T: Scalar>(
    l: DecoderLayerView<T>,
    n_heads: usize,
    n_kv_heads: usize,
    head_dim: usize,
) -> bool {
    let hidden = (n_heads * head_dim) as usize;
    let kv_width = (n_kv_heads * head_dim) as usize;
    &&& l.self_attn.n_heads == n_heads
    &&& l.self_attn.n_kv_heads == n_kv_heads
    &&& l.self_attn.head_dim == head_dim
    &&& l.self_attn.rotary_dim == head_dim
    &&& is_zero_matrix(l.self_attn.wq, hidden, hidden)
    &&& is_zero_matrix(l.self_attn.wk, hidden, kv_width)
    &&& is_zero_matrix(l.self_attn.wv, hidden, kv_width)
    &&& is_zero_matrix(l.self_attn.wo, hidden, hidden)
    &&& is_zero_vector(l.attention_norm, hidden)
    &&& is_zero_vector(l.ffn_norm, hidden)
    &&& is_zero_matrix(l.w1, hidden, hidden)
    &&& is_zero_matrix(l.w2, hidden, hidden)
    &&& is_zero_matrix(l.w3, hidden, hidden)
    &&& l.self_attn.lora_q is None
    &&& l.self_attn.lora_k is None
    &&& l.self_attn.lora_v is None
    &&& l.lora_w1 is None
    &&& l.lora_w2 is None
    &&& l.lora_w3 is None
}

impl<T: Scalar> LlamaDecoderLayer<T> {
    /// A layer of zeros for `n_heads` query heads and `n_kv_heads`
    /// key/value heads of `head_dim` features, without adapters. Its parts
    /// go together, so that it can be applied as it is. Dimensions that do
    /// not go together are refused.
    pub fn new(n_heads: usize, n_kv_heads: usize, head_dim: usize) -> (r: Result<Self, TensorError>)
        ensures
            match r {
                Ok(l) => layer_dims_ok(n_heads, n_kv_heads, head_dim) && is_zero_layer(
                    l@,
                    n_heads,
                    n_kv_heads,
                    head_dim,
                ) && l@.consistent() && l@.hidden() == n_heads * head_dim,
                Err(e) => e == TensorError::ConfigurationInvalid && !layer_dims_ok(
                    n_heads,
                    n_kv_heads,
                    head_dim,
                ),
            },
    {
        if n_kv_heads == 0 || n_kv_heads > n_heads || n_heads % n_kv_heads != 0 {
            return Err(TensorError::ConfigurationInvalid);
        }
        let hidden = match n_heads.checked_mul(head_dim) {
            Some(h) => h,
            None => {
                return Err(TensorError::ConfigurationInvalid);
            },
        };
        if hidden.checked_mul(hidden).is_none() {
            return Err(TensorError::ConfigurationInvalid);
        }
        proof {
            assert(n_kv_heads * head_dim <= n_heads * head_dim && hidden * (n_kv_heads * head_dim)
                <= hidden * hidden) by (nonlinear_arith)
                requires
                    n_kv_heads <= n_heads,
                    hidden == n_heads * head_dim,
            ;
        }
        let kv_width = n_kv_heads * head_dim;
        let self_attn = LlamaAttention {
            wq: zero_matrix(hidden, hidden),
            wk: zero_matrix(hidden, kv_width),
            wv: zero_matrix(hidden, kv_width),
            wo: zero_matrix(hidden, hidden),
            n_heads,
            n_kv_heads,
            head_dim,
            rotary_dim: head_dim,
            lora_q: None,
            lora_k: None,
            lora_v: None,
        };
        let layer = LlamaDecoderLayer {
            self_attn,
            attention_norm: zero_vector(hidden),
            ffn_norm: zero_vector(hidden),
            w1: zero_matrix(hidden, hidden),
            w2: zero_matrix(hidden, hidden),
            w3: zero_matrix(hidden, hidden),
            lora_w1: None,
            lora_w2: None,
            lora_w3: None,
        };
        Ok(layer)
    }

    /// The layer with the given adapters on its feed-forward weights `w1`,
    /// `w2` and `w3`. Adapters that do not go with their weights are
    /// refused.
    pub fn with_adapters(
        self,
        lora_w1: Option<LoraAdapter<T>>,
        lora_w2: Option<LoraAdapter<T>>,
        lora_w3: Option<LoraAdapter<T>>,
    ) -> (r: Result<Self, TensorError>)
        ensures
            match r {
                Ok(l) => l@.consistent() && l@ == (DecoderLayerView {
                    lora_w1: adapter_view(lora_w1),
                    lora_w2: adapter_view(lora_w2),
                    lora_w3: adapter_view(lora_w3),
                    ..self@
                }),
                Err(e) => e == TensorError::ConfigurationInvalid && !(DecoderLayerView {
                    lora_w1: adapter_view(lora_w1),
                    lora_w2: adapter_view(lora_w2),
                    lora_w3: adapter_view(lora_w3),
                    ..self@
                }).consistent(),
            },
    {
        let layer = LlamaDecoderLayer {
            self_attn: self.self_attn,
            attention_norm: self.attention_norm,
            ffn_norm: self.ffn_norm,
            w1: self.w1,
            w2: self.w2,
            w3: self.w3,
            lora_w1,
            lora_w2,
            lora_w3,
        };
        if layer.is_consistent() {
            Ok(layer)
        } else {
            Err(TensorError::ConfigurationInvalid)
        }
    }

    /// A layer from its attention block and its weights, without adapters
    /// on the feed-forward weights. Parts that do not go together are
    /// refused.
    pub fn from_weights(
        self_attn: LlamaAttention<T>,
        attention_norm: Tensor<T>,
        ffn_norm: Tensor<T>,
        w1: Tensor<T>,
        w2: Tensor<T>,
        w3: Tensor<T>,
    ) -> (r: Result<Self, TensorError>)
        ensures
            match r {
                Ok(l) => l@.consistent() && l@ == (DecoderLayerView {
                    self_attn: self_attn@,
                    attention_norm: attention_norm@,
                    ffn_norm: ffn_norm@,
                    w1: w1@,
                    w2: w2@,
                    w3: w3@,
                    lora_w1: None,
                    lora_w2: None,
                    lora_w3: None,
                }),
                Err(e) => e == TensorError::ConfigurationInvalid && !(DecoderLayerView {
                    self_attn: self_attn@,
                    attention_norm: attention_norm@,
                    ffn_norm: ffn_norm@,
                    w1: w1@,
                    w2: w2@,
                    w3: w3@,
                    lora_w1: None,
                    lora_w2: None,
                    lora_w3: None,
                }).consistent(),
            },
    {
        let layer = LlamaDecoderLayer {
            self_attn,
            attention_norm,
            ffn_norm,
            w1,
            w2,
            w3,
            lora_w1: None,
            lora_w2: None,
            lora_w3: None,
        };
        if layer.is_consistent() {
            Ok(layer)
        } else {
            Err(TensorError::ConfigurationInvalid)
        }
    }

    /// Whether the layer's parts go together.
    pub fn is_consistent(&self) -> (r: bool)
        ensures
            r == self@.consistent(),
    {
        if !self.self_attn.is_consistent() {
            return false;
        }
        let hidden = self.self_attn.wq.shape()[0];
        if self.self_attn.wo.shape()[1] != hidden {
            return false;
        }
        let an = self.attention_norm.shape();
        let fnorm = self.ffn_norm.shape();
        let s1 = self.w1.shape();
        let s2 = self.w2.shape();
        let s3 = self.w3.shape();
        if an.len() != 1 || fnorm.len() != 1 || s1.len() != 2 || s2.len() != 2 || s3.len() != 2 {
            return false;
        }
        let ok = an[0] == hidden && fnorm[0] == hidden && s1[0] == hidden && s3[0] == s1[0] && s3[1]
            == s1[1] && s2[0] == s1[1] && s2[1] == hidden && adapter_fits(&self.w1, &self.lora_w1)
            && adapter_fits(&self.w2, &self.lora_w2) && adapter_fits(&self.w3, &self.lora_w3);
        proof {
            if ok {
                assert(an@ =~= seq![hidden]);
                assert(fnorm@ =~= seq![hidden]);
                assert(s3@ =~= s1@);
                assert(s2@ =~= seq![s1@[1], hidden]);
            }
        }
        ok
    }

    /// The width of the rows that the layer takes, where its query weight
    /// is a matrix.
    pub(crate) fn hidden(&self) -> (r: Option<usize>)
        ensures
            match r {
                Some(h) => self@.self_attn.wq.shape.len() == 2 && h == self@.hidden(),
                None => self@.self_attn.wq.shape.len() != 2,
            },
    {
        let q = self.self_attn.wq.shape();
        if q.len() == 2 {
            Some(q[0])
        } else {
            None
        }
    }

    /// Whether a sequence of `seq` rows can go through the layer, whose
    /// parts go together, without an element count leaving `usize`.
    pub(crate) fn fits(&self, seq: usize) -> (r: bool)
        requires
            self@.consistent(),
        ensures
            r == self@.fits(seq),
    {
        self.self_attn.fits(seq) && self.fits_feed_forward(seq)
    }

    /// Whether a sequence of `seq` rows can go through the feed-forward
    /// block of the layer, whose parts go together, without an element
    /// count leaving `usize`.
    fn fits_feed_forward(&self, seq: usize) -> (r: bool)
        requires
            self@.consistent(),
        ensures
            r == (seq * self@.ffn_dim() <= usize::MAX && seq * adapter_rank(self@.lora_w1) <= usize::MAX
                && seq * adapter_rank(self@.lora_w2) <= usize::MAX && seq * adapter_rank(self@.lora_w3)
                <= usize::MAX),
    {
        seq.checked_mul(self.w1.shape()[1]).is_some() && seq.checked_mul(
            rank_of(&self.lora_w1),
        ).is_some() && seq.checked_mul(rank_of(&self.lora_w2)).is_some() && seq.checked_mul(
            rank_of(&self.lora_w3),
        ).is_some()
    }

    /// The error that `forward` would answer `x` with, if any.
    pub fn check(&self, x: &Tensor<T>) -> (r: Option<TensorError>)
        ensures
            r == self@.error(x@.shape),
    {
        if !self.is_consistent() {
            return Some(TensorError::ConfigurationInvalid);
        }
        match self.self_attn.check(x) {
            Some(e) => {
                if e != TensorError::IndexOutOfRange {
                    return Some(e);
                }
            },
            None => {},
        }
        let seq = x.shape()[0];
        if !self.fits_feed_forward(seq) {
            return Some(TensorError::ShapeMismatch);
        }
        if seq > 0 && seq - 1 > MAX_SEQ_LEN {
            return Some(TensorError::IndexOutOfRange);
        }
        None
    }

    /// The gated feed-forward block applied to the rows of `x`.
    fn feed_forward(&self, x: &Tensor<T>) -> (r: Result<Tensor<T>, TensorError>)
        requires
            self@.consistent(),
            x@.shape.len() == 2,
            x@.shape[1] == self@.hidden(),
            self@.fits(x@.shape[0]),
        ensures
            match r {
                Ok(t) => feed_forward_rel(self@, x@, t@) && t@.shape == x@.shape && t@.wf(),
                Err(_) => false,
            },
    {
        let pre = project(x, &self.w1, &self.lora_w1)?;
        let gate = pre.silu();
        let up = project(x, &self.w3, &self.lora_w3)?;
        proof {
            lemma_broadcast_same(gate@.shape);
            lemma_size_2(gate@.shape);
        }
        let hidden = gate.mul(&up)?;
        let out = project(&hidden, &self.w2, &self.lora_w2)?;
        proof {
            assert(out@.shape =~= x@.shape);
            assert(projection_rel(x@, self@.w1, self@.lora_w1, pre@) && map_silu_rel(pre@, gate@)
                && projection_rel(x@, self@.w3, self@.lora_w3, up@) && zip_rel(
                BinaryOp::Mul,
                gate@,
                up@,
                hidden@,
            ) && projection_rel(hidden@, self@.w2, self@.lora_w2, out@));
        }
        Ok(out)
    }

    /// The layer applied to `x`, a matrix with one row for each token.
    pub fn forward(&self, x: &Tensor<T>) -> (r: Result<Tensor<T>, TensorError>)
        ensures
            match r {
                Ok(t) => self@.error(x@.shape) is None && decoder_rel(self@, x@, t@) && t@.shape
                    == x@.shape && t@.wf(),
                Err(e) => self@.error(x@.shape) == Some(e),
            },
    {
        if let Some(e) = self.check(x) {
            return Err(e);
        }
        let eps = norm_eps();
        proof {
            lemma_broadcast_same(x@.shape);
            lemma_size_2(x@.shape);
            assert(rmsnorm_ok(x@.shape, self@.attention_norm.shape));
        }
        let normed = x.rmsnorm(&self.attention_norm, eps)?;
        let attended = self.self_attn.forward(&normed)?;
        proof {
            assert(attended@.shape =~= x@.shape);
        }
        let h = x.add(&attended)?;
        proof {
            assert(rmsnorm_ok(h@.shape, self@.ffn_norm.shape));
        }
        let h_normed = h.rmsnorm(&self.ffn_norm, eps)?;
        let fed = self.feed_forward(&h_normed)?;
        let out = h.add(&fed)?;
        proof {
            assert(norm_eps_rel(eps) && rmsnorm_rel(x@, self@.attention_norm, eps, normed@) && attention_rel(
                self@.self_attn,
                normed@,
                attended@,
            ) && zip_rel(BinaryOp::Add, x@, attended@, h@) && rmsnorm_rel(
                h@,
                self@.ffn_norm,
                eps,
                h_normed@,
            ) && feed_forward_rel(self@, h_normed@, fed@) && zip_rel(BinaryOp::Add, h@, fed@, out@));
        }
        Ok(out)
    }
}

/// A decoder-only transformer: the embedding of the tokens, the layers, the
/// final normalisation and the projection to the vocabulary.
pub struct LlamaModel<T> {
    embedding: Tensor<T>,
    layers: Vec<LlamaDecoderLayer<T>>,
    norm: Tensor<T>,
    output: Tensor<T>,
}

/// What a model is in contracts.
pub struct ModelView<T> {
    pub embedding: TensorView<T>,
    pub layers: Seq<DecoderLayerView<T>>,
    pub norm: TensorView<T>,
    pub output: TensorView<T>,
}

impl<T> View for LlamaModel<T> {
    type V = ModelView<T>;

    closed spec fn view(&self) -> ModelView<T> {
        ModelView {
            embedding: self.embedding@,
            layers: Seq::new(self.layers@.len(), |i: int| self.layers@[i]@),
            norm: self.norm@,
            output: self.output@,
        }
    }
}

impl<T> ModelView<T> {
    /// The number of tokens that the model knows.
    pub open spec fn vocab_size(self) -> usize {
        self.embedding.shape[0]
    }

    /// The width of the rows that run through the layers.
    pub open spec fn hidden(self) -> usize {
        self.embedding.shape[1]
    }

    /// The model's parts go together: the embedding is a matrix, each
    /// layer's parts go together and it takes rows as wide as the
    /// embedding's, the final normalisation has one weight for each place
    /// of a row, and the output projection leads from the rows to the
    /// vocabulary.
    pub open spec fn consistent(self) -> bool {
        &&& self.embedding.shape.len() == 2
        &&& forall|i: int|
            0 <= i < self.layers.len() ==> (#[trigger] self.layers[i]).consistent() && self.layers[i].hidden()
                == self.hidden()
        &&& self.norm.shape == seq![self.hidden()]
        &&& self.output.shape == seq![self.hidden(), self.vocab_size()]
    }

    /// A sequence of `seq` tokens can go through the model without an
    /// element count leaving `usize`.
    pub open spec fn fits(self, seq: usize) -> bool {
        &&& seq * self.hidden() <= usize::MAX
        &&& forall|i: int| 0 <= i < self.layers.len() ==> (#[trigger] self.layers[i]).fits(seq)
        &&& seq * self.vocab_size() <= usize::MAX
    }

    /// The error that the model answers the tokens `x` with, if any. The
    /// model's own consistency is looked at first, then the length of the
    /// sequence, then the tokens and, where there are layers, whether the
    /// position of any token exceeds `MAX_SEQ_LEN`.
    pub open spec fn error(self, x: Seq<usize>) -> Option<TensorError> {
        if !self.consistent() {
            Some(TensorError::ConfigurationInvalid)
        } else if !(x.len() <= usize::MAX && self.fits(x.len() as usize)) {
            Some(TensorError::ShapeMismatch)
        } else if !rows_in_range(x, self.vocab_size()) || (self.layers.len() > 0 && x.len() > 0
            && x.len() - 1 > MAX_SEQ_LEN) {
            Some(TensorError::IndexOutOfRange)
        } else {
            None
        }
    }
}

/// `r` is `x` after the first `k` of the layers, one after the other.
pub open spec fn layers_rel<T: Scalar>(
    layers: Seq<DecoderLayerView<T>>,
    k: nat,
    x: TensorView<T>,
    r: TensorView<T>,
) -> bool
    decreases k,
{
    if k == 0 {
        r == x
    } else {
        exists|mid: TensorView<T>|
            layers_rel(layers, (k - 1) as nat, x, mid) && #[trigger] decoder_rel(layers[k - 1], mid, r)
    }
}

/// `r` holds the logits of the model for the tokens `x`: the rows of the
/// embedding that the tokens name go through all layers, the final
/// normalisation and the output projection.
pub open spec fn model_rel<T: Scalar>(m: ModelView<T>, x: Seq<usize>, r: TensorView<T>) -> bool {
    exists|embedded: TensorView<T>, h: TensorView<T>, eps: T, normed: TensorView<T>|
        #[trigger] select_rel(m.embedding, x, embedded) && #[trigger] layers_rel(
            m.layers,
            m.layers.len(),
            embedded,
            h,
        ) && norm_eps_rel(eps) && #[trigger] rmsnorm_rel(h, m.norm, eps, normed) && matmul_rel(
            normed,
            m.output,
            r,
        )
}

impl<T: Scalar> LlamaModel<T> {
    /// A model of zeros with `n_layers` layers for a vocabulary of
    /// `vocab_size` tokens and rows as wide as `n_heads` heads of
    /// `head_dim` features. Its parts go together, so that it can be run as
    /// it is. Dimensions that do not go together are refused.
    pub fn new(
        n_heads: usize,
        n_kv_heads: usize,
        head_dim: usize,
        vocab_size: usize,
        n_layers: usize,
    ) -> (r: Result<Self, TensorError>)
        ensures
            match r {
                Ok(m) => {
                    &&& model_dims_ok(n_heads, n_kv_heads, head_dim, vocab_size, n_layers)
                    &&& m@.consistent()
                    &&& is_zero_matrix(m@.embedding, vocab_size, (n_heads * head_dim) as usize)
                    &&& m@.layers.len() == n_layers
                    &&& forall|i: int|
                        0 <= i < n_layers ==> is_zero_layer(
                            #[trigger] m@.layers[i],
                            n_heads,
                            n_kv_heads,
                            head_dim,
                        )
                    &&& is_zero_vector(m@.norm, (n_heads * head_dim) as usize)
                    &&& is_zero_matrix(m@.output, (n_heads * head_dim) as usize, vocab_size)
                },
                Err(e) => e == TensorError::ConfigurationInvalid && !model_dims_ok(
                    n_heads,
                    n_kv_heads,
                    head_dim,
                    vocab_size,
                    n_layers,
                ),
            },
    {
        if n_kv_heads == 0 || n_kv_heads > n_heads || n_heads % n_kv_heads != 0 {
            return Err(TensorError::ConfigurationInvalid);
        }
        let hidden = match n_heads.checked_mul(head_dim) {
            Some(h) => h,
            None => {
                return Err(TensorError::ConfigurationInvalid);
            },
        };
        if vocab_size.checked_mul(hidden).is_none() {
            return Err(TensorError::ConfigurationInvalid);
        }
        if n_layers > 0 && hidden.checked_mul(hidden).is_none() {
            return Err(TensorError::ConfigurationInvalid);
        }
        proof {
            lemma_mul_is_commutative(vocab_size as int, hidden as int);
        }
        let embedding = zero_matrix(vocab_size, hidden);
        let mut layers: Vec<LlamaDecoderLayer<T>> = Vec::new();
        let mut i: usize = 0;
        while i < n_layers
            invariant
                i <= n_layers,
                layers@.len() == i,
                hidden == n_heads * head_dim,
                n_layers > 0 ==> layer_dims_ok(n_heads, n_kv_heads, head_dim),
                forall|j: int|
                    0 <= j < i ==> is_zero_layer(
                        (#[trigger] layers@[j])@,
                        n_heads,
                        n_kv_heads,
                        head_dim,
                    ) && layers@[j]@.consistent() && layers@[j]@.hidden() == hidden,
            decreases n_layers - i,
        {
            let layer = match LlamaDecoderLayer::new(n_heads, n_kv_heads, head_dim) {
                Ok(l) => l,
                Err(_) => {
                    return Err(TensorError::ConfigurationInvalid);
                },
            };
            layers.push(layer);
            i += 1;
        }
        let model = LlamaModel {
            embedding,
            layers,
            norm: zero_vector(hidden),
            output: zero_matrix(hidden, vocab_size),
        };
        proof {
            assert forall|j: int| 0 <= j < model@.layers.len() implies (#[trigger] model@.layers[j]).consistent()
                && model@.layers[j].hidden() == model@.hidden() by {
                assert(model@.layers[j] == model.layers@[j]@);
            }
            assert forall|j: int| 0 <= j < n_layers implies is_zero_layer(
                #[trigger] model@.layers[j],
                n_heads,
                n_kv_heads,
                head_dim,
            ) by {
                assert(model@.layers[j] == model.layers@[j]@);
            }
        }
        Ok(model)
    }

    /// A model from its weights. Parts that do not go together are refused.
    pub fn from_weights(
        embedding: Tensor<T>,
        layers: Vec<LlamaDecoderLayer<T>>,
        norm: Tensor<T>,
        output: Tensor<T>,
    ) -> (r: Result<Self, TensorError>)
        ensures
            match r {
                Ok(m) => m@.consistent() && m@ == (ModelView {
                    embedding: embedding@,
                    layers: Seq::new(layers@.len(), |i: int| layers@[i]@),
                    norm: norm@,
                    output: output@,
                }),
                Err(e) => e == TensorError::ConfigurationInvalid && !(ModelView {
                    embedding: embedding@,
                    layers: Seq::new(layers@.len(), |i: int| layers@[i]@),
                    norm: norm@,
                    output: output@,
                }).consistent(),
            },
    {
        let model = LlamaModel { embedding, layers, norm, output };
        if model.is_consistent() {
            Ok(model)
        } else {
            Err(TensorError::ConfigurationInvalid)
        }
    }

    /// Whether the model's parts go together.
    pub fn is_consistent(&self) -> (r: bool)
        ensures
            r == self@.consistent(),
    {
        let es = self.embedding.shape();
        if es.len() != 2 {
            return false;
        }
        let vocab = es[0];
        let hidden = es[1];
        let mut i: usize = 0;
        while i < self.layers.len()
            invariant
                i <= self.layers@.len(),
                hidden == self@.hidden(),
                forall|j: int|
                    0 <= j < i ==> (#[trigger] self@.layers[j]).consistent() && self@.layers[j].hidden()
                        == hidden,
            decreases self.layers@.len() - i,
        {
            let layer = &self.layers[i];
            if !layer.is_consistent() {
                assert(!self@.layers[i as int].consistent());
                return false;
            }
            match layer.hidden() {
                Some(h) => {
                    if h != hidden {
                        assert(self@.layers[i as int].hidden() != self@.hidden());
                        return false;
                    }
                },
                None => {
                    return false;
                },
            }
            i += 1;
        }
        let ns = self.norm.shape();
        let os = self.output.shape();
        if ns.len() != 1 || os.len() != 2 {
            return false;
        }
        let ok = ns[0] == hidden && os[0] == hidden && os[1] == vocab;
        proof {
            if ok {
                assert(ns@ =~= seq![hidden]);
                assert(os@ =~= seq![hidden, vocab]);
            }
        }
        ok
    }

    /// The error that `forward` would answer the tokens `x` with, if any.
    pub fn check(&self, x: &[usize]) -> (r: Option<TensorError>)
        ensures
            r == self@.error(x@),
    {
        if !self.is_consistent() {
            return Some(TensorError::ConfigurationInvalid);
        }
        let seq = x.len();
        let es = self.embedding.shape();
        let vocab = es[0];
        let hidden = es[1];
        if seq.checked_mul(hidden).is_none() || seq.checked_mul(vocab).is_none() {
            return Some(TensorError::ShapeMismatch);
        }
        let mut i: usize = 0;
        while i < self.layers.len()
            invariant
                i <= self.layers@.len(),
                self@.consistent(),
                seq == x@.len(),
                forall|j: int| 0 <= j < i ==> (#[trigger] self@.layers[j]).fits(seq),
            decreases self.layers@.len() - i,
        {
            assert(self@.layers[i as int].consistent());
            if !self.layers[i].fits(seq) {
                assert(!self@.layers[i as int].fits(seq));
                return Some(TensorError::ShapeMismatch);
            }
            i += 1;
        }
        let mut t: usize = 0;
        while t < seq
            invariant
                t <= seq,
                seq == x@.len(),
                self@.consistent(),
                self@.fits(seq),
                vocab == self@.vocab_size(),
                forall|u: int| 0 <= u < t ==> #[trigger] x@[u] < vocab,
            decreases seq - t,
        {
            if x[t] >= vocab {
                assert(!rows_in_range(x@, vocab)) by {
                    assert(!(x@[t as int] < vocab));
                }
                return Some(TensorError::IndexOutOfRange);
            }
            t += 1;
        }
        if self.layers.len() > 0 && seq > 0 && seq - 1 > MAX_SEQ_LEN {
            return Some(TensorError::IndexOutOfRange);
        }
        None
    }

    /// The logits for the tokens `x`: a matrix with one row for each token
    /// and one column for each token of the vocabulary.
    pub fn forward(&self, x: &[usize]) -> (r: Result<Tensor<T>, TensorError>)
        ensures
            match r {
                Ok(t) => self@.error(x@) is None && model_rel(self@, x@, t@) && t@.shape == seq![
                    x@.len() as usize,
                    self@.vocab_size(),
                ] && t@.wf(),
                Err(e) => self@.error(x@) == Some(e),
            },
    {
        if let Some(e) = self.check(x) {
            return Err(e);
        }
        let ghost seq = x@.len() as usize;
        proof {
            assert(select_error(self@.embedding.shape, x@) is None);
        }
        let mut h = self.embedding.select_rows(x)?;
        let ghost embedded = h;
        let mut i: usize = 0;
        while i < self.layers.len()
            invariant
                i <= self.layers@.len(),
                self@.error(x@) is None,
                seq == x@.len(),
                h@.shape == seq![seq, self@.hidden()],
                h@.wf(),
                select_rel(self@.embedding, x@, embedded@),
                layers_rel(self@.layers, i as nat, embedded@, h@),
            decreases self.layers@.len() - i,
        {
            let ghost mid = h@;
            proof {
                assert(self@.layers[i as int].consistent());
                assert(self@.layers[i as int].fits(seq));
                assert(self@.layers[i as int].error(h@.shape) is None);
            }
            let next = self.layers[i].forward(&h)?;
            h = next;
            i += 1;
            proof {
                assert(layers_rel(self@.layers, (i - 1) as nat, embedded@, mid) && decoder_rel(
                    self@.layers[i - 1],
                    mid,
                    h@,
                ));
            }
        }
        let eps = norm_eps();
        proof {
            assert(rmsnorm_ok(h@.shape, self@.norm.shape));
        }
        let normed = h.rmsnorm(&self.norm, eps)?;
        proof {
            assert(matmul_ok(normed@.shape, self@.output.shape));
        }
        let out = normed.matmul(&self.output)?;
        proof {
            assert(select_rel(self@.embedding, x@, embedded@) && layers_rel(
                self@.layers,
                self@.layers.len(),
                embedded@,
                h@,
            ) && norm_eps_rel(eps) && rmsnorm_rel(h@, self@.norm, eps, normed@) && matmul_rel(
                normed@,
                self@.output,
                out@,
            ));
            assert(out@.shape =~= seq![seq, self@.vocab_size()]);
        }
        Ok(out)
    }
}

/// The dimensions of a model go together: the head counts do, the
/// embedding's element count fits in `usize`, and so do, where there are
/// layers, those of the layers' weights.
pub open spec fn model_dims_ok(
    n_heads: usize,
    n_kv_heads: usize,
    head_dim: usize,
    vocab_size: usize,
    n_layers: usize,
) -> bool {
    &&& heads_ok(n_heads, n_kv_heads, head_dim)
    &&& vocab_size * (n_heads * head_dim) <= usize::MAX
    &&& n_layers > 0 ==> layer_dims_ok(n_heads, n_kv_heads, head_dim)
}

/// A layer of zeros can be applied: its parts go together, and it accepts
/// every matrix with rows of its width whose element counts fit in `usize`
/// and whose rows have positions up to `MAX_SEQ_LEN`.
pub proof fn lemma_zero_layer_accepts<T: Scalar>(
    l: DecoderLayerView<T>,
    n_heads: usize,
    n_kv_heads: usize,
    head_dim: usize,
    x: Seq<usize>,
)
    requires
        layer_dims_ok(n_heads, n_kv_heads, head_dim),
        is_zero_layer(l, n_heads, n_kv_heads, head_dim),
        x.len() == 2,
        x[1] == n_heads * head_dim,
        x[0] * (n_heads * head_dim) <= usize::MAX,
        n_heads * x[0] * x[0] <= usize::MAX,
        x[0] <= MAX_SEQ_LEN + 1,
    ensures
        l.consistent(),
        l.hidden() == n_heads * head_dim,
        l.error(x) is None,
{
    assert(n_kv_heads * head_dim <= n_heads * head_dim) by (nonlinear_arith)
        requires
            n_kv_heads <= n_heads,
    ;
    assert(x[0] * 0 == 0) by (nonlinear_arith);
}

/// A model of zeros can be run: its parts go together, and it accepts every
/// sequence of tokens of its vocabulary whose element counts fit in `usize`
/// and, where it has layers, whose tokens have positions up to
/// `MAX_SEQ_LEN`.
pub proof fn lemma_zero_model_accepts<T: Scalar>(
    m: ModelView<T>,
    n_heads: usize,
    n_kv_heads: usize,
    head_dim: usize,
    vocab_size: usize,
    n_layers: usize,
    x: Seq<usize>,
)
    requires
        model_dims_ok(n_heads, n_kv_heads, head_dim, vocab_size, n_layers),
        is_zero_matrix(m.embedding, vocab_size, (n_heads * head_dim) as usize),
        m.layers.len() == n_layers,
        forall|i: int|
            0 <= i < n_layers ==> is_zero_layer(#[trigger] m.layers[i], n_heads, n_kv_heads, head_dim),
        is_zero_vector(m.norm, (n_heads * head_dim) as usize),
        is_zero_matrix(m.output, (n_heads * head_dim) as usize, vocab_size),
        rows_in_range(x, vocab_size),
        x.len() * (n_heads * head_dim) <= usize::MAX,
        x.len() * vocab_size <= usize::MAX,
        n_layers > 0 ==> n_heads * x.len() * x.len() <= usize::MAX && x.len() <= MAX_SEQ_LEN + 1,
    ensures
        m.consistent(),
        m.error(x) is None,
{
    let hidden = (n_heads * head_dim) as usize;
    if x.len() > 0 {
        assert(x[0] < vocab_size);
        assert(x.len() <= x.len() * vocab_size) by (nonlinear_arith)
            requires
                vocab_size >= 1,
        ;
    }
    let seq = x.len() as usize;
    assert forall|i: int| 0 <= i < m.layers.len() implies (#[trigger] m.layers[i]).consistent()
        && m.layers[i].hidden() == m.hidden() && m.layers[i].fits(seq) by {
        lemma_zero_layer_accepts(m.layers[i], n_heads, n_kv_heads, head_dim, seq![seq, hidden]);
    }
}

} // verus!
