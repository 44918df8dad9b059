use vstd::prelude::*;
use vstd::arithmetic::div_mod::lemma_div_by_multiple;
use vstd::arithmetic::mul::{lemma_mul_inequality, lemma_mul_is_commutative};
use crate::error::TensorError;
use crate::scalar::{dot_acc, dot_strided, strided, Scalar};
use crate::shape::shape_size;
use crate::tensor::{
    append_run, copy_strided, copy_vec, lemma_rows_append, row_count, row_of, Tensor, TensorView,
};

verus! {

/// `rr` is an outcome of `1 / sqrt(mean(xs * xs) + eps)`: the squares are
/// added up from zero and in order, the sum is divided by the number of
/// elements, `eps` is added, and the root is taken before the inversion.
pub open spec fn inv_rms_rel<T: Scalar>(xs: Seq<T>, eps: T, rr: T) -> bool {
    exists|ss: T, nf: T, mean: T, ve: T, sq: T, one: T|
        dot_acc(xs, xs, xs.len(), ss) && call_ensures(T::from_usize, (xs.len() as usize,), nf)
            && #[trigger] call_ensures(T::div, (ss, nf), mean) && #[trigger] call_ensures(
            T::add,
            (mean, eps),
            ve,
        ) && call_ensures(T::sqrt, (ve,), sq) && call_ensures(T::from_usize, (1usize,), one)
            && #[trigger] call_ensures(T::div, (one, sq), rr)
}

/// `y` is an outcome of `(x * rr) * w`.
pub open spec fn scaled_rel<T: Scalar>(x: T, rr: T, w: T, y: T) -> bool {
    exists|t: T| call_ensures(T::mul, (x, rr), t) && call_ensures(T::mul, (t, w), y)
}

/// `ys` is the row `xs` after root-mean-square normalisation with the
/// weights `w`: each element times the inverse root mean square of the row,
/// times its weight.
pub open spec fn rmsnorm_row_rel<T: Scalar>(xs: Seq<T>, w: Seq<T>, eps: T, ys: Seq<T>) -> bool {
    &&& ys.len() == xs.len()
    &&& exists|rr: T|
        #[trigger] inv_rms_rel(xs, eps, rr) && forall|c: int|
            0 <= c < xs.len() ==> scaled_rel(xs[c], rr, w[c], #[trigger] ys[c])
}

/// The normalisation of one row.
pub(crate) fn rmsnorm_row<T: Scalar>(xs: &Vec<T>, w: &Vec<T>, eps: T) -> (ys: Vec<T>)
    requires
        w@.len() == xs@.len(),
    ensures
        rmsnorm_row_rel(xs@, w@, eps, ys@),
{
    let d = xs.len();
    proof {
        if d > 0 {
            assert(0 + (d - 1) * 1 < xs@.len());
        }
    }
    let ss = dot_strided(xs, 0, 1, xs, 0, 1, d);
    proof {
        assert(strided(xs@, 0, 1, d as nat) =~= xs@);
    }
    let nf = T::from_usize(d);
    let mean = ss.div(nf);
    let ve = mean.add(eps);
    let sq = ve.sqrt();
    let one = T::from_usize(1);
    let rr = one.div(sq);
    proof {
        assert(dot_acc(xs@, xs@, xs@.len(), ss) && call_ensures(T::from_usize, (xs@.len() as usize,), nf)
            && call_ensures(T::div, (ss, nf), mean) && call_ensures(T::add, (mean, eps), ve)
            && call_ensures(T::sqrt, (ve,), sq) && call_ensures(T::from_usize, (1usize,), one)
            && call_ensures(T::div, (one, sq), rr));
        assert(inv_rms_rel(xs@, eps, rr));
    }
    let mut ys: Vec<T> = Vec::new();
    let mut c: usize = 0;
    while c < d
        invariant
            c <= d,
            d == xs@.len(),
            d == w@.len(),
            ys@.len() == c,
            forall|k: int| 0 <= k < c ==> scaled_rel(xs@[k], rr, w@[k], #[trigger] ys@[k]),
        decreases d - c,
    {
        let t = xs[c].mul(rr);
        let y = t.mul(w[c]);
        ys.push(y);
        proof {
            assert(call_ensures(T::mul, (xs@[c as int], rr), t) && call_ensures(T::mul, (t, w@[c as int]), y));
            assert(scaled_rel(xs@[c as int], rr, w@[c as int], y));
        }
        c += 1;
    }
    ys
}

/// A tensor of the dimensions `x` can be normalised with weights of the
/// dimensions `w`: it has a last axis, and the weights are a vector of that
/// axis's length.
pub open spec fn rmsnorm_ok(x: Seq<usize>, w: Seq<usize>) -> bool {
    &&& x.len() >= 1
    &&& w.len() == 1
    &&& w[0] == x.last()
}

/// `r` is `x` after root-mean-square normalisation along its last axis with
/// the weights `w`: it has the dimensions of `x`, and each of its rows is
/// the normalisation of the same row of `x`.
pub open spec fn rmsnorm_rel<T: Scalar>(
    x: TensorView<T>,
    w: TensorView<T>,
    eps: T,
    r: TensorView<T>,
) -> bool {
    let d = x.shape.last() as int;
    &&& r.shape == x.shape
    &&& r.data.len() == x.data.len()
    &&& forall|t: int|
        0 <= t < row_count(x.data.len(), d) ==> rmsnorm_row_rel(
            row_of(x.data, d, t),
            w.data,
            eps,
            #[trigger] row_of(r.data, d, t),
        )
}

/// The number of rows of `d` elements in a tensor of `total` elements whose
/// last axis has the length `d`.
pub(crate) fn rows_of(shape: &Vec<usize>, total: usize) -> (rows: usize)
    requires
        shape@.len() >= 1,
        total == shape_size(shape@),
    ensures
        rows == row_count(total as nat, shape@.last() as int),
        total == rows * shape@.last(),
{
    let d = shape[shape.len() - 1];
    if d == 0 {
        0
    } else {
        proof {
            let lead = shape_size(shape@.drop_last()) as int;
            lemma_div_by_multiple(lead, d as int);
            lemma_mul_is_commutative(lead, d as int);
        }
        total / d
    }
}

impl<T: Scalar> Tensor<T> {
    /// The root-mean-square normalisation along the last axis, with one
    /// weight for each place along it and `epsilon` added under the root.
    pub fn rmsnorm(&self, weight: &Tensor<T>, epsilon: T) -> (r: Result<Tensor<T>, TensorError>)
        ensures
            match r {
                Ok(t) => rmsnorm_ok(self@.shape, weight@.shape) && rmsnorm_rel(
                    self@,
                    weight@,
                    epsilon,
                    t@,
                ) && t@.wf(),
                Err(e) => e == TensorError::ShapeMismatch && !rmsnorm_ok(self@.shape, weight@.shape),
            },
    {
        let shape = self.shape();
        let wshape = weight.shape();
        if shape.len() == 0 || wshape.len() != 1 {
            return Err(TensorError::ShapeMismatch);
        }
        let d = shape[shape.len() - 1];
        if wshape[0] != d {
            return Err(TensorError::ShapeMismatch);
        }
        let data = self.data();
        let w = weight.data();
        let total = data.len();
        let rows = rows_of(shape, total);
        proof {
            crate::shape::lemma_size_1(wshape@);
        }
        let mut out: Vec<T> = Vec::new();
        let mut t: usize = 0;
        while t < rows
            invariant
                t <= rows,
                total == rows * d,
                total == data@.len(),
                w@.len() == d,
                out@.len() == t * d,
                forall|u: int|
                    0 <= u < t ==> rmsnorm_row_rel(
                        row_of(data@, d as int, u),
                        w@,
                        epsilon,
                        #[trigger] row_of(out@, d as int, u),
                    ),
            decreases rows - t,
        {
            proof {
                lemma_mul_inequality(t + 1, rows as int, d as int);
                assert((t + 1) * d == t * d + d) by (nonlinear_arith);
            }
            let xs = copy_strided(data, t * d, 1, d);
            let ys = rmsnorm_row(&xs, w, epsilon);
            let ghost before = out@;
            append_run(&mut out, &ys);
            proof {
                lemma_rows_append(before, ys@, d as int, t as int);
                assert(xs@ =~= row_of(data@, d as int, t as int));
            }
            t += 1;
        }
        Ok(Tensor::from_parts(copy_vec(shape), out))
    }
}

} // verus!
