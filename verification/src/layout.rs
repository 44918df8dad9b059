use vstd::prelude::*;
use vstd::arithmetic::mul::{lemma_mul_is_associative, lemma_mul_is_commutative, lemma_mul_nonnegative};
use crate::error::TensorError;
use crate::scalar::Scalar;
use crate::shape::{
    checked_size, lemma_index2, lemma_index3, lemma_size_2, lemma_size_3, lemma_unindex2,
    lemma_unindex3, shape_size,
};
use crate::tensor::{copy_vec, Tensor, TensorView};

verus! {

/// The element in row `i`, column `j` of rows of `cols` elements.
pub open spec fn at2<T>(data: Seq<T>, cols: int, i: int, j: int) -> T {
    data[i * cols + j]
}

/// The element in block `i`, row `j`, column `k` of blocks of `rows` rows of
/// `cols` elements.
pub open spec fn at3<T>(data: Seq<T>, rows: int, cols: int, i: int, j: int, k: int) -> T {
    data[(i * rows + j) * cols + k]
}

/// `r` is the tensor `x` of rank 3 with its first two axes exchanged.
pub open spec fn swap01_rel<T>(x: TensorView<T>, r: TensorView<T>) -> bool {
    let a = x.shape[0] as int;
    let b = x.shape[1] as int;
    let c = x.shape[2] as int;
    &&& r.shape == seq![x.shape[1], x.shape[0], x.shape[2]]
    &&& r.data.len() == x.data.len()
    &&& forall|i: int, j: int, k: int|
        0 <= i < a && 0 <= j < b && 0 <= k < c ==> #[trigger] at3(r.data, a, c, j, i, k) == at3(
            x.data,
            b,
            c,
            i,
            j,
            k,
        )
}

/// `r` is the tensor `x` of rank 3 with its last two axes exchanged.
pub open spec fn swap12_rel<T>(x: TensorView<T>, r: TensorView<T>) -> bool {
    let a = x.shape[0] as int;
    let b = x.shape[1] as int;
    let c = x.shape[2] as int;
    &&& r.shape == seq![x.shape[0], x.shape[2], x.shape[1]]
    &&& r.data.len() == x.data.len()
    &&& forall|i: int, j: int, k: int|
        0 <= i < a && 0 <= j < b && 0 <= k < c ==> #[trigger] at3(r.data, c, b, i, k, j) == at3(
            x.data,
            b,
            c,
            i,
            j,
            k,
        )
}

/// The heads of a tensor of the dimensions `x` can be repeated `n_rep`
/// times each: it has rank 3, and the element count of the result fits in
/// `usize`.
pub open spec fn repeat_ok(x: Seq<usize>, n_rep: usize) -> bool {
    &&& x.len() == 3
    &&& x[0] * n_rep <= usize::MAX
    &&& x[0] * n_rep * x[1] * x[2] <= usize::MAX
}

/// `r` holds each head of `x` `n_rep` times in a row: its head `h` is head
/// `h / n_rep` of `x`.
pub open spec fn repeat_rel<T>(x: TensorView<T>, n_rep: usize, r: TensorView<T>) -> bool {
    let block = x.shape[1] * x.shape[2];
    &&& r.shape == seq![(x.shape[0] * n_rep) as usize, x.shape[1], x.shape[2]]
    &&& r.data.len() == x.shape[0] * n_rep * block
    &&& forall|h: int, q: int|
        0 <= h < x.shape[0] * n_rep && 0 <= q < block ==> #[trigger] at2(r.data, block, h, q) == at2(
            x.data,
            block,
            h / (n_rep as int),
            q,
        )
}

/// A matrix of the dimensions `x` can be split into `heads` heads of
/// `head_dim` features: its rows hold exactly that many.
pub open spec fn split_ok(x: Seq<usize>, heads: usize, head_dim: usize) -> bool {
    x.len() == 2 && heads * head_dim == x[1]
}

/// `r` holds the heads of the matrix `x`, one after the other: the features
/// of head `h` in row `t` of `x` are row `t` of block `h` of `r`.
pub open spec fn split_heads_rel<T>(
    x: TensorView<T>,
    heads: usize,
    head_dim: usize,
    r: TensorView<T>,
) -> bool {
    let s = x.shape[0] as int;
    &&& r.shape == seq![heads, x.shape[0], head_dim]
    &&& r.data.len() == x.data.len()
    &&& forall|h: int, t: int, d: int|
        0 <= h < heads && 0 <= t < s && 0 <= d < head_dim ==> #[trigger] at3(
            r.data,
            s,
            head_dim as int,
            h,
            t,
            d,
        ) == at3(x.data, heads as int, head_dim as int, t, h, d)
}

/// The heads of a tensor of the dimensions `x` can be laid side by side: it
/// has rank 3, and the length of the rows that result fits in `usize`.
pub open spec fn merge_ok(x: Seq<usize>) -> bool {
    x.len() == 3 && x[0] * x[2] <= usize::MAX
}

/// `r` holds the heads of `x` side by side: row `t` of block `h` of `x` is
/// the features of head `h` in row `t` of `r`.
pub open spec fn merge_heads_rel<T>(x: TensorView<T>, r: TensorView<T>) -> bool {
    let n = x.shape[0] as int;
    let s = x.shape[1] as int;
    let hd = x.shape[2] as int;
    &&& r.shape == seq![x.shape[1], (n * hd) as usize]
    &&& r.data.len() == x.data.len()
    &&& forall|h: int, t: int, d: int|
        0 <= h < n && 0 <= t < s && 0 <= d < hd ==> #[trigger] at3(r.data, n, hd, t, h, d) == at3(
            x.data,
            s,
            hd,
            h,
            t,
            d,
        )
}

/// Every index in `rows` names a row of a matrix of `n` rows.
pub open spec fn rows_in_range(rows: Seq<usize>, n: usize) -> bool {
    forall|t: int| 0 <= t < rows.len() ==> #[trigger] rows[t] < n
}

/// The error that `select_rows` answers a matrix of the dimensions `x` and
/// the indices `rows` with, if any: the shape is looked at first.
pub open spec fn select_error(x: Seq<usize>, rows: Seq<usize>) -> Option<TensorError> {
    if x.len() != 2 || rows.len() * x[1] > usize::MAX {
        Some(TensorError::ShapeMismatch)
    } else if !rows_in_range(rows, x[0]) {
        Some(TensorError::IndexOutOfRange)
    } else {
        None
    }
}

/// `r` holds the rows of `x` that `rows` names, in the order of `rows`.
pub open spec fn select_rel<T>(x: TensorView<T>, rows: Seq<usize>, r: TensorView<T>) -> bool {
    let d = x.shape[1] as int;
    &&& r.shape == seq![rows.len() as usize, x.shape[1]]
    &&& r.data.len() == rows.len() * d
    &&& forall|t: int, c: int|
        0 <= t < rows.len() && 0 <= c < d ==> #[trigger] at2(r.data, d, t, c) == at2(
            x.data,
            d,
            rows[t] as int,
            c,
        )
}

/// Every element of `r` is an outcome of the element that stands for the
/// count 0.
pub open spec fn all_zero<T: Scalar>(r: TensorView<T>) -> bool {
    forall|p: int| 0 <= p < r.data.len() ==> call_ensures(T::from_usize, (0usize,), #[trigger] r.data[p])
}

/// The heads of one group hold the same elements: where each head was
/// repeated `n_rep` times, two heads `h1` and `h2` that come from one head
/// agree at every place.
pub proof fn lemma_repeat_shares_group<T>(
    x: TensorView<T>,
    n_rep: usize,
    r: TensorView<T>,
    h1: int,
    h2: int,
)
    requires
        repeat_rel(x, n_rep, r),
        n_rep > 0,
        0 <= h1 < x.shape[0] * n_rep,
        0 <= h2 < x.shape[0] * n_rep,
        h1 / (n_rep as int) == h2 / (n_rep as int),
    ensures
        forall|q: int|
            0 <= q < x.shape[1] * x.shape[2] ==> #[trigger] at2(r.data, x.shape[1] * x.shape[2], h1, q)
                == at2(r.data, x.shape[1] * x.shape[2], h2, q),
{
    let block = x.shape[1] * x.shape[2];
    assert forall|q: int| 0 <= q < block implies #[trigger] at2(r.data, block, h1, q) == at2(
        r.data,
        block,
        h2,
        q,
    ) by {
        assert(at2(r.data, block, h1, q) == at2(x.data, block, h1 / (n_rep as int), q));
        assert(at2(r.data, block, h2, q) == at2(x.data, block, h2 / (n_rep as int), q));
    }
}

/// Laying the heads of a matrix one after the other and side by side again
/// gives the matrix back.
pub proof fn lemma_split_merge_inverse<T>(
    x: TensorView<T>,
    heads: usize,
    head_dim: usize,
    split: TensorView<T>,
    merged: TensorView<T>,
)
    requires
        x.wf(),
        split_ok(x.shape, heads, head_dim),
        split_heads_rel(x, heads, head_dim, split),
        merge_heads_rel(split, merged),
    ensures
        merged.shape == x.shape,
        merged.data == x.data,
{
    let s = x.shape[0] as int;
    let n = heads as int;
    let hd = head_dim as int;
    lemma_size_2(x.shape);
    assert(merged.shape =~= x.shape);
    assert(s * (n * hd) == s * n * hd) by (nonlinear_arith);
    assert forall|p: int| 0 <= p < x.data.len() implies merged.data[p] == x.data[p] by {
        lemma_unindex3(p, s, n, hd);
        let t = (p / hd) / n;
        let h = (p / hd) % n;
        let d = p % hd;
        assert(at3(merged.data, n, hd, t, h, d) == at3(split.data, s, hd, h, t, d));
        assert(at3(split.data, s, hd, h, t, d) == at3(x.data, n, hd, t, h, d));
    }
    assert(merged.data =~= x.data);
}

/// The shape of `a` blocks of `b` rows of `c` elements.
pub(crate) fn shape3(a: usize, b: usize, c: usize) -> (r: Vec<usize>)
    ensures
        r@ == seq![a, b, c],
        shape_size(r@) == a * b * c,
{
    let mut r: Vec<usize> = Vec::new();
    r.push(a);
    r.push(b);
    r.push(c);
    proof {
        assert(r@ =~= seq![a, b, c]);
        lemma_size_3(r@);
    }
    r
}

/// The shape of a matrix of `a` rows of `b` elements.
pub(crate) fn shape2(a: usize, b: usize) -> (r: Vec<usize>)
    ensures
        r@ == seq![a, b],
        shape_size(r@) == a * b,
{
    let mut r: Vec<usize> = Vec::new();
    r.push(a);
    r.push(b);
    proof {
        assert(r@ =~= seq![a, b]);
        lemma_size_2(r@);
    }
    r
}

impl<T: Scalar> Tensor<T> {
    /// A tensor of the dimensions `shape` whose elements all stand for 0.
    /// It is refused where the element count does not fit in `usize`.
    pub fn zeros(shape: Vec<usize>) -> (r: Result<Tensor<T>, TensorError>)
        ensures
            match r {
                Ok(t) => t@.shape == shape@ && t@.wf() && all_zero(t@),
                Err(e) => e == TensorError::ShapeMismatch && shape_size(shape@) > usize::MAX,
            },
    {
        let total = match checked_size(&shape) {
            Some(n) => n,
            None => {
                return Err(TensorError::ShapeMismatch);
            },
        };
        let zero = T::from_usize(0);
        let mut out: Vec<T> = Vec::new();
        let mut p: usize = 0;
        while p < total
            invariant
                p <= total,
                out@.len() == p,
                call_ensures(T::from_usize, (0usize,), zero),
                forall|q: int| 0 <= q < p ==> #[trigger] out@[q] == zero,
            decreases total - p,
        {
            out.push(zero);
            p += 1;
        }
        Ok(Tensor::from_parts(shape, out))
    }
}

impl<T: Copy> Tensor<T> {
    /// The same elements under other dimensions. It is refused where the
    /// dimensions call for another number of elements.
    pub fn reshape(&self, shape: Vec<usize>) -> (r: Result<Tensor<T>, TensorError>)
        ensures
            match r {
                Ok(t) => t@.shape == shape@ && t@.data == self@.data && t@.wf(),
                Err(e) => e == TensorError::ShapeMismatch && shape_size(shape@) != self@.data.len(),
            },
    {
        Tensor::new(shape, copy_vec(self.data()))
    }

    /// The tensor of rank 3 with its first two axes exchanged.
    pub fn swap_axes01(&self) -> (r: Result<Tensor<T>, TensorError>)
        ensures
            match r {
                Ok(t) => self@.shape.len() == 3 && swap01_rel(self@, t@) && t@.wf(),
                Err(e) => e == TensorError::ShapeMismatch && self@.shape.len() != 3,
            },
    {
        let shape = self.shape();
        if shape.len() != 3 {
            return Err(TensorError::ShapeMismatch);
        }
        let a = shape[0];
        let b = shape[1];
        let c = shape[2];
        let data = self.data();
        let total = data.len();
        proof {
            lemma_size_3(shape@);
            assert(b * a * c == a * b * c) by (nonlinear_arith);
        }
        let mut out: Vec<T> = Vec::new();
        let mut p: usize = 0;
        while p < total
            invariant
                p <= total,
                total == data@.len(),
                total == a * b * c,
                total == b * a * c,
                out@.len() == p,
                forall|q: int|
                    0 <= q < p ==> #[trigger] out@[q] == data@[(((q / (c as int)) % (a as int)) * b + (q / (
                    c as int)) / (a as int)) * c + q % (c as int)],
            decreases total - p,
        {
            proof {
                lemma_unindex3(p as int, b as int, a as int, c as int);
            }
            let k = p % c;
            let i = (p / c) % a;
            let j = (p / c) / a;
            proof {
                lemma_index3(i as int, j as int, k as int, a as int, b as int, c as int);
                lemma_mul_nonnegative(i as int, b as int);
                lemma_mul_nonnegative(i * b + j, c as int);
            }
            out.push(data[(i * b + j) * c + k]);
            p += 1;
        }
        proof {
            assert forall|i: int, j: int, k: int| 0 <= i < a && 0 <= j < b && 0 <= k < c implies #[trigger] at3(
                out@,
                a as int,
                c as int,
                j,
                i,
                k,
            ) == at3(data@, b as int, c as int, i, j, k) by {
                lemma_index3(j, i, k, b as int, a as int, c as int);
            }
        }
        Ok(Tensor::from_parts(shape3(b, a, c), out))
    }

    /// The tensor of rank 3 with its last two axes exchanged.
    pub fn swap_axes12(&self) -> (r: Result<Tensor<T>, TensorError>)
        ensures
            match r {
                Ok(t) => self@.shape.len() == 3 && swap12_rel(self@, t@) && t@.wf(),
                Err(e) => e == TensorError::ShapeMismatch && self@.shape.len() != 3,
            },
    {
        let shape = self.shape();
        if shape.len() != 3 {
            return Err(TensorError::ShapeMismatch);
        }
        let a = shape[0];
        let b = shape[1];
        let c = shape[2];
        let data = self.data();
        let total = data.len();
        proof {
            lemma_size_3(shape@);
            assert(a * c * b == a * b * c) by (nonlinear_arith);
        }
        let mut out: Vec<T> = Vec::new();
        let mut p: usize = 0;
        while p < total
            invariant
                p <= total,
                total == data@.len(),
                total == a * b * c,
                total == a * c * b,
                out@.len() == p,
                forall|q: int|
                    0 <= q < p ==> #[trigger] out@[q] == data@[(((q / (b as int)) / (c as int)) * b + q % (
                    b as int)) * c + (q / (b as int)) % (c as int)],
            decreases total - p,
        {
            proof {
                lemma_unindex3(p as int, a as int, c as int, b as int);
            }
            let j = p % b;
            let k = (p / b) % c;
            let i = (p / b) / c;
            proof {
                lemma_index3(i as int, j as int, k as int, a as int, b as int, c as int);
                lemma_mul_nonnegative(i as int, b as int);
                lemma_mul_nonnegative(i * b + j, c as int);
            }
            out.push(data[(i * b + j) * c + k]);
            p += 1;
        }
        proof {
            assert forall|i: int, j: int, k: int| 0 <= i < a && 0 <= j < b && 0 <= k < c implies #[trigger] at3(
                out@,
                c as int,
                b as int,
                i,
                k,
                j,
            ) == at3(data@, b as int, c as int, i, j, k) by {
                lemma_index3(i, k, j, a as int, c as int, b as int);
            }
        }
        Ok(Tensor::from_parts(shape3(a, c, b), out))
    }

    /// The heads of a matrix whose rows hold `heads` heads of `head_dim`
    /// features side by side, one head after the other.
    pub fn split_heads(&self, heads: usize, head_dim: usize) -> (r: Result<Tensor<T>, TensorError>)
        ensures
            match r {
                Ok(t) => split_ok(self@.shape, heads, head_dim) && split_heads_rel(
                    self@,
                    heads,
                    head_dim,
                    t@,
                ) && t@.wf(),
                Err(e) => e == TensorError::ShapeMismatch && !split_ok(self@.shape, heads, head_dim),
            },
    {
        let shape = self.shape();
        if shape.len() != 2 {
            return Err(TensorError::ShapeMismatch);
        }
        let s = shape[0];
        match heads.checked_mul(head_dim) {
            Some(width) => {
                if width != shape[1] {
                    return Err(TensorError::ShapeMismatch);
                }
            },
            None => {
                return Err(TensorError::ShapeMismatch);
            },
        }
        proof {
            lemma_size_2(shape@);
            lemma_mul_is_associative(s as int, heads as int, head_dim as int);
        }
        let rows = self.reshape(shape3(s, heads, head_dim))?;
        let out = rows.swap_axes01()?;
        Ok(out)
    }

    /// The heads of a tensor of rank 3 side by side in the rows of a matrix.
    pub fn merge_heads(&self) -> (r: Result<Tensor<T>, TensorError>)
        ensures
            match r {
                Ok(t) => merge_ok(self@.shape) && merge_heads_rel(self@, t@) && t@.wf(),
                Err(e) => e == TensorError::ShapeMismatch && !merge_ok(self@.shape),
            },
    {
        let shape = self.shape();
        if shape.len() != 3 {
            return Err(TensorError::ShapeMismatch);
        }
        let n = shape[0];
        let s = shape[1];
        let hd = shape[2];
        let width = match n.checked_mul(hd) {
            Some(w) => w,
            None => {
                return Err(TensorError::ShapeMismatch);
            },
        };
        let rows = self.swap_axes01()?;
        proof {
            lemma_size_3(shape@);
            assert(s * width == n * s * hd) by (nonlinear_arith)
                requires
                    width == n * hd,
            ;
        }
        let out = rows.reshape(shape2(s, width))?;
        Ok(out)
    }

    /// Each head of a tensor of rank 3 `n_rep` times in a row, so that the
    /// heads of one group stand side by side and hold the same elements.
    pub fn repeat_heads(&self, n_rep: usize) -> (r: Result<Tensor<T>, TensorError>)
        ensures
            match r {
                Ok(t) => repeat_ok(self@.shape, n_rep) && repeat_rel(self@, n_rep, t@) && t@.wf(),
                Err(e) => e == TensorError::ShapeMismatch && !repeat_ok(self@.shape, n_rep),
            },
    {
        let shape = self.shape();
        if shape.len() != 3 {
            return Err(TensorError::ShapeMismatch);
        }
        let g = shape[0];
        let s = shape[1];
        let d = shape[2];
        let data = self.data();
        let len = data.len();
        proof {
            lemma_size_3(shape@);
            lemma_mul_is_associative(g as int, s as int, d as int);
        }
        let heads = match g.checked_mul(n_rep) {
            Some(h) => h,
            None => {
                return Err(TensorError::ShapeMismatch);
            },
        };
        let new_shape = shape3(heads, s, d);
        let total = match checked_size(&new_shape) {
            Some(n) => n,
            None => {
                return Err(TensorError::ShapeMismatch);
            },
        };
        if total == 0 {
            let out: Vec<T> = Vec::new();
            proof {
                lemma_mul_is_associative(heads as int, s as int, d as int);
                assert forall|h: int, q: int| 0 <= h < heads && 0 <= q < s * d implies #[trigger] at2(
                    out@,
                    s * d,
                    h,
                    q,
                ) == at2(data@, s * d, h / (n_rep as int), q) by {
                    lemma_index2(h, q, heads as int, s * d);
                    lemma_mul_is_associative(heads as int, s as int, d as int);
                }
            }
            return Ok(Tensor::from_parts(new_shape, out));
        }
        proof {
            lemma_mul_is_associative(heads as int, s as int, d as int);
            assert(n_rep > 0 && s * d > 0) by (nonlinear_arith)
                requires
                    total == (g * n_rep) * (s * d),
                    total > 0,
                    g >= 0,
                    n_rep >= 0,
                    s * d >= 0,
            ;
            assert(s * d <= total) by (nonlinear_arith)
                requires
                    total == heads * (s * d),
                    total > 0,
                    heads >= 0,
                    s * d >= 0,
            ;
        }
        let block = s * d;
        let mut out: Vec<T> = Vec::new();
        let mut p: usize = 0;
        while p < total
            invariant
                p <= total,
                len == data@.len(),
                len == g * block,
                total == heads * block,
                heads == g * n_rep,
                n_rep > 0,
                block > 0,
                out@.len() == p,
                forall|q: int|
                    0 <= q < p ==> #[trigger] out@[q] == data@[((q / (block as int)) / (n_rep as int)) * block
                        + q % (block as int)],
            decreases total - p,
        {
            proof {
                lemma_unindex2(p as int, heads as int, block as int);
            }
            let h = p / block;
            let q = p % block;
            proof {
                lemma_mul_is_commutative(g as int, n_rep as int);
                lemma_unindex2(h as int, g as int, n_rep as int);
                lemma_index2(h as int / n_rep as int, q as int, g as int, block as int);
                lemma_mul_nonnegative(h as int / n_rep as int, block as int);
            }
            out.push(data[(h / n_rep) * block + q]);
            p += 1;
        }
        proof {
            assert forall|h: int, q: int| 0 <= h < heads && 0 <= q < block implies #[trigger] at2(
                out@,
                block as int,
                h,
                q,
            ) == at2(data@, block as int, h / (n_rep as int), q) by {
                lemma_index2(h, q, heads as int, block as int);
            }
        }
        Ok(Tensor::from_parts(new_shape, out))
    }

    /// The rows of a matrix that `rows` names, in the order of `rows`.
    pub fn select_rows(&self, rows: &[usize]) -> (r: Result<Tensor<T>, TensorError>)
        ensures
            match r {
                Ok(t) => select_error(self@.shape, rows@) is None && select_rel(self@, rows@, t@)
                    && t@.wf(),
                Err(e) => select_error(self@.shape, rows@) == Some(e),
            },
    {
        let shape = self.shape();
        if shape.len() != 2 {
            return Err(TensorError::ShapeMismatch);
        }
        let n = shape[0];
        let d = shape[1];
        let count = rows.len();
        let total = match count.checked_mul(d) {
            Some(t) => t,
            None => {
                return Err(TensorError::ShapeMismatch);
            },
        };
        let mut t: usize = 0;
        while t < count
            invariant
                t <= count,
                count == rows@.len(),
                shape@ == self@.shape,
                shape@.len() == 2,
                n == shape@[0],
                d == shape@[1],
                total == count * d,
                forall|u: int| 0 <= u < t ==> #[trigger] rows@[u] < n,
            decreases count - t,
        {
            if rows[t] >= n {
                assert(!rows_in_range(rows@, n)) by {
                    assert(!(rows@[t as int] < n));
                }
                return Err(TensorError::IndexOutOfRange);
            }
            t += 1;
        }
        let data = self.data();
        let len = data.len();
        proof {
            lemma_size_2(shape@);
        }
        let mut out: Vec<T> = Vec::new();
        let mut p: usize = 0;
        while p < total
            invariant
                p <= total,
                total == count * d,
                count == rows@.len(),
                len == data@.len(),
                len == n * d,
                rows_in_range(rows@, n),
                out@.len() == p,
                forall|q: int|
                    0 <= q < p ==> #[trigger] out@[q] == data@[rows@[q / (d as int)] * d + q % (d as int)],
            decreases total - p,
        {
            proof {
                lemma_unindex2(p as int, count as int, d as int);
            }
            let u = p / d;
            let c = p % d;
            let row = rows[u];
            proof {
                lemma_index2(row as int, c as int, n as int, d as int);
                lemma_mul_nonnegative(row as int, d as int);
            }
            out.push(data[row * d + c]);
            p += 1;
        }
        proof {
            assert forall|t: int, c: int| 0 <= t < count && 0 <= c < d implies #[trigger] at2(
                out@,
                d as int,
                t,
                c,
            ) == at2(data@, d as int, rows@[t] as int, c) by {
                lemma_index2(t, c, count as int, d as int);
            }
        }
        Ok(Tensor::from_parts(shape2(count, d), out))
    }
}

} // verus!
